//! The declaration for `/etc/nix/nix.conf`, and the patcher that brings a
//! file in line with it.
//!
//! The file is a list of `key = value` lines. A declaration owns four keys;
//! every line that sets none of them is left where and as it is. See
//! <https://nixos.org/manual/nix/stable/command-ref/conf-file>.

use super::{apply_utf8, is_outcome, Applied, ApplyError, MergeError};
use crate::text::{
    append_text, clone_text, join, join_with, lemma_sort_dedup, lemma_sorted_unique,
    lemma_views_push, lines, remove_prefix, same_text, sort_dedup, sort_texts, split_lines,
    split_whitespace, strictly_sorted, string_views, strip_prefix, to_chars, views, words,
};
use vstd::prelude::*;
use vstd::string::*;
use vstd::utf8::*;

verus! {

/// The mode of the configuration file: `rw-r--r--`.
pub const NIX_CONF_MODE: u32 = 0o644;

/// A declaration of what `nix.conf` must at least hold.
#[derive(Debug)]
pub struct NixConf(NixConfExt<()>);

/// The four keys of the schema, in the order in which new lines are added,
/// each with a value and something that travels with it: nothing in a
/// declaration, the line that set the value in a file that was read.
#[derive(Debug)]
pub struct NixConfExt<T> {
    pub substituters: (Vec<Vec<char>>, T),
    pub trusted_public_keys: (Vec<Vec<char>>, T),
    pub post_build_hook: (Option<Vec<char>>, T),
    pub secret_key_files: (Vec<Vec<char>>, T),
}

/// The values of the four keys.
pub struct NixConfView {
    pub substituters: Seq<Seq<char>>,
    pub trusted_public_keys: Seq<Seq<char>>,
    pub post_build_hook: Option<Seq<char>>,
    pub secret_key_files: Seq<Seq<char>>,
}

/// A line of the file: where it stands, if it stands there yet, and its text.
#[derive(Debug)]
pub struct Line {
    pub index: Option<usize>,
    pub content: Vec<char>,
}

impl View for Line {
    type V = (Option<int>, Seq<char>);

    open spec fn view(&self) -> (Option<int>, Seq<char>) {
        (
            match self.index {
                Some(i) => Some(i as int),
                None => None,
            },
            self.content@,
        )
    }
}

/// The text that an optional vector of characters holds.
pub open spec fn value_view(value: Option<Vec<char>>) -> Option<Seq<char>> {
    match value {
        Some(v) => Some(v@),
        None => None,
    }
}

/// The lines that a list of [`Line`]s describes.
pub open spec fn line_views(new_lines: Seq<Line>) -> Seq<(Option<int>, Seq<char>)> {
    Seq::new(new_lines.len(), |i: int| new_lines[i]@)
}

/// Where the line of a value stands, if the value came from a line.
pub open spec fn line_index(line: Option<Line>) -> Option<int> {
    match line {
        Some(l) => l@.0,
        None => None,
    }
}

impl<T> NixConfExt<T> {
    /// The values, without what travels with them.
    pub open spec fn values(&self) -> NixConfView {
        NixConfView {
            substituters: views(self.substituters.0@),
            trusted_public_keys: views(self.trusted_public_keys.0@),
            post_build_hook: value_view(self.post_build_hook.0),
            secret_key_files: views(self.secret_key_files.0@),
        }
    }

    /// No key set; with each goes what one call of `new_ext` gives.
    pub fn new<F>(new_ext: F) -> (r: Self) where F: Fn() -> T
        requires
            call_requires(new_ext, ()),
        ensures
            r.values() == empty_conf(),
            call_ensures(new_ext, (), r.substituters.1),
            call_ensures(new_ext, (), r.trusted_public_keys.1),
            call_ensures(new_ext, (), r.post_build_hook.1),
            call_ensures(new_ext, (), r.secret_key_files.1),
    {
        let r = Self {
            substituters: (Vec::new(), new_ext()),
            trusted_public_keys: (Vec::new(), new_ext()),
            post_build_hook: (None, new_ext()),
            secret_key_files: (Vec::new(), new_ext()),
        };
        assert(views(r.substituters.0@) =~= Seq::<Seq<char>>::empty());
        assert(views(r.trusted_public_keys.0@) =~= Seq::<Seq<char>>::empty());
        assert(views(r.secret_key_files.0@) =~= Seq::<Seq<char>>::empty());
        r
    }
}

/// The declaration that sets no key.
pub open spec fn empty_conf() -> NixConfView {
    NixConfView {
        substituters: Seq::empty(),
        trusted_public_keys: Seq::empty(),
        post_build_hook: None,
        secret_key_files: Seq::empty(),
    }
}

/// What stands between a key and its value.
pub open spec fn separator() -> Seq<char> {
    seq![' ', '=', ' ']
}

/// How a line that sets the key `name` begins.
pub open spec fn field_prefix(name: Seq<char>) -> Seq<char> {
    name + separator()
}

/// The last of `lines` that begins with `prefix`.
pub open spec fn last_match(lines: Seq<Seq<char>>, prefix: Seq<char>) -> Option<int>
    decreases lines.len(),
{
    if lines.len() == 0 {
        None
    } else if prefix.is_prefix_of(lines.last()) {
        Some(lines.len() - 1)
    } else {
        last_match(lines.drop_last(), prefix)
    }
}

/// The list that `lines` give the key `name`: the words of the last line that
/// sets it.
pub open spec fn list_in(lines: Seq<Seq<char>>, name: Seq<char>) -> Seq<Seq<char>> {
    match last_match(lines, field_prefix(name)) {
        Some(i) => words(lines[i].skip(field_prefix(name).len() as int)),
        None => Seq::empty(),
    }
}

/// The value that `lines` give the key `name`: what follows the key in the
/// last line that sets it, as it stands.
pub open spec fn value_in(lines: Seq<Seq<char>>, name: Seq<char>) -> Option<Seq<char>> {
    match last_match(lines, field_prefix(name)) {
        Some(i) => Some(lines[i].skip(field_prefix(name).len() as int)),
        None => None,
    }
}

/// What a file with these lines sets.
pub open spec fn found(lines: Seq<Seq<char>>) -> NixConfView {
    NixConfView {
        substituters: list_in(lines, "substituters"@),
        trusted_public_keys: list_in(lines, "trusted-public-keys"@),
        post_build_hook: value_in(lines, "post-build-hook"@),
        secret_key_files: list_in(lines, "secret-key-files"@),
    }
}

/// Two values for a key that takes one: both set, and not the same.
pub open spec fn conflicting(a: Option<Seq<char>>, b: Option<Seq<char>>) -> bool {
    a is Some && b is Some && a != b
}

/// The value that is set, where the two do not conflict.
pub open spec fn either(a: Option<Seq<char>>, b: Option<Seq<char>>) -> Option<Seq<char>> {
    if a is Some {
        a
    } else {
        b
    }
}

/// What two sets of values come to together, where their hooks do not
/// conflict: lists are united, sorted and rid of repetitions.
pub open spec fn merged(x: NixConfView, y: NixConfView) -> NixConfView {
    NixConfView {
        substituters: sort_dedup(x.substituters + y.substituters),
        trusted_public_keys: sort_dedup(x.trusted_public_keys + y.trusted_public_keys),
        post_build_hook: either(x.post_build_hook, y.post_build_hook),
        secret_key_files: sort_dedup(x.secret_key_files + y.secret_key_files),
    }
}

/// What a conflict between two values of the key `name` is reported as.
pub open spec fn conflict_reason(name: Seq<char>) -> Seq<char> {
    "Conflicting values set for "@ + name
}

/// The line for a list, to stand at `at`; none for an empty list.
pub open spec fn list_entry(at: Option<int>, name: Seq<char>, values: Seq<Seq<char>>) -> Seq<
    (Option<int>, Seq<char>),
> {
    if values.len() == 0 {
        Seq::empty()
    } else {
        seq![(at, field_prefix(name) + join(values, seq![' ']))]
    }
}

/// The line for a single value, to stand at `at`; none for a value not set.
pub open spec fn value_entry(at: Option<int>, name: Seq<char>, value: Option<Seq<char>>) -> Seq<
    (Option<int>, Seq<char>),
> {
    match value {
        Some(v) => seq![(at, field_prefix(name) + v)],
        None => Seq::empty(),
    }
}

/// The lines that `conf` asks for in a file with these `lines`, in the order
/// of the schema. Each stands where the file set its key last, or nowhere yet.
pub open spec fn rendered(conf: NixConfView, lines: Seq<Seq<char>>) -> Seq<
    (Option<int>, Seq<char>),
> {
    let m = merged(conf, found(lines));
    list_entry(
        last_match(lines, field_prefix("substituters"@)),
        "substituters"@,
        m.substituters,
    ) + list_entry(
        last_match(lines, field_prefix("trusted-public-keys"@)),
        "trusted-public-keys"@,
        m.trusted_public_keys,
    ) + value_entry(
        last_match(lines, field_prefix("post-build-hook"@)),
        "post-build-hook"@,
        m.post_build_hook,
    ) + list_entry(
        last_match(lines, field_prefix("secret-key-files"@)),
        "secret-key-files"@,
        m.secret_key_files,
    )
}

/// `lines` with `entry` in its place, or at the end if it has no place yet.
pub open spec fn put(lines: Seq<Seq<char>>, entry: (Option<int>, Seq<char>)) -> Seq<Seq<char>> {
    match entry.0 {
        Some(i) => lines.update(i, entry.1),
        None => lines.push(entry.1),
    }
}

/// `lines` after each of `entries` was put, first to last.
pub open spec fn put_all(lines: Seq<Seq<char>>, entries: Seq<(Option<int>, Seq<char>)>) -> Seq<
    Seq<char>,
>
    decreases entries.len(),
{
    if entries.len() == 0 {
        lines
    } else {
        put(put_all(lines, entries.drop_last()), entries.last())
    }
}

/// The lines of a file after `conf` was applied to it.
pub open spec fn patched_lines(conf: NixConfView, lines: Seq<Seq<char>>) -> Seq<Seq<char>> {
    put_all(lines, rendered(conf, lines))
}

/// The text of a file after `conf` was applied to it.
pub open spec fn patched_text(conf: NixConfView, text: Seq<char>) -> Seq<char> {
    join(patched_lines(conf, lines(text)), seq!['\n'])
}

/// What applying `conf` to a file with the bytes `old` comes to.
pub open spec fn applied(conf: NixConfView, old: Seq<u8>) -> Applied {
    if !valid_utf8(old) {
        Applied::NotText
    } else {
        let text = decode_utf8(old);
        if conflicting(conf.post_build_hook, found(lines(text)).post_build_hook) {
            Applied::Conflict(conflict_reason("post_build_hook"@))
        } else if patched_text(conf, text) == text {
            Applied::Unchanged
        } else {
            Applied::Write(encode_utf8(patched_text(conf, text)))
        }
    }
}

/// No line stands at or after the end of the file.
pub proof fn lemma_last_match_in_range(lines: Seq<Seq<char>>, prefix: Seq<char>)
    ensures
        match last_match(lines, prefix) {
            Some(i) => 0 <= i < lines.len() && prefix.is_prefix_of(lines[i]),
            None => true,
        },
    decreases lines.len(),
{
    if lines.len() > 0 && !prefix.is_prefix_of(lines.last()) {
        lemma_last_match_in_range(lines.drop_last(), prefix);
    }
}

/// How a line that sets the key `field_name` begins.
pub fn prefix_of(field_name: &str) -> (prefix: Vec<char>)
    ensures
        prefix@ == field_prefix(field_name@),
{
    let mut prefix = to_chars(field_name);
    prefix.push(' ');
    prefix.push('=');
    prefix.push(' ');
    assert(prefix@ =~= field_prefix(field_name@));
    prefix
}

/// Reads `content`, the line at `index`, for the key `field_name`. Where the
/// line sets the key, `result` becomes what `parse_value` makes of the text
/// behind the key, together with the line; else `result` stays.
pub fn parse_field<T, F>(
    field_name: &str,
    index: usize,
    content: &Vec<char>,
    parse_value: F,
    result: &mut (T, Option<Line>),
) where F: FnOnce(&Vec<char>) -> T
    requires
        forall|value: &Vec<char>| call_requires(parse_value, (value,)),
    ensures
        match strip_prefix(content@, field_prefix(field_name@)) {
            Some(rest) => {
                &&& exists|value: Vec<char>|
                    value@ == rest && call_ensures(parse_value, (&value,), final(result).0)
                &&& final(result).1 matches Some(line)
                &&& line.index == Some(index)
                &&& line.content@ == content@
            },
            None => *final(result) == *old(result),
        },
{
    let prefix = prefix_of(field_name);
    if let Some(value_str) = remove_prefix(content, &prefix) {
        let value = parse_value(&value_str);
        result.0 = value;
        result.1 = Some(Line { index: Some(index), content: content.clone() });
        assert(call_ensures(parse_value, (&value_str,), result.0));
    }
}

/// Reads `content`, the line at `index`, for the list `field_name`: where the
/// line sets it, `result` becomes the words behind the key, with the line.
pub fn parse_list(
    field_name: &str,
    index: usize,
    content: &Vec<char>,
    result: &mut (Vec<Vec<char>>, Option<Line>),
)
    ensures
        match strip_prefix(content@, field_prefix(field_name@)) {
            Some(rest) => {
                &&& views(final(result).0@) == words(rest)
                &&& final(result).1 matches Some(line)
                &&& line.index == Some(index)
                &&& line.content@ == content@
            },
            None => *final(result) == *old(result),
        },
{
    let parse_value = |value_str: &Vec<char>| -> (list: Vec<Vec<char>>)
        ensures
            views(list@) == words(value_str@),
        {
            split_whitespace(value_str)
        };
    parse_field(field_name, index, content, parse_value, result)
}

/// Reads `content`, the line at `index`, for the value `field_name`: where
/// the line sets it, `result` becomes the text behind the key as it stands,
/// with the line.
pub fn parse_single_value(
    field_name: &str,
    index: usize,
    content: &Vec<char>,
    result: &mut (Option<Vec<char>>, Option<Line>),
)
    ensures
        match strip_prefix(content@, field_prefix(field_name@)) {
            Some(rest) => {
                &&& value_view(final(result).0) == Some(rest)
                &&& final(result).1 matches Some(line)
                &&& line.index == Some(index)
                &&& line.content@ == content@
            },
            None => *final(result) == *old(result),
        },
{
    let parse_value = |value_str: &Vec<char>| -> (value: Option<Vec<char>>)
        ensures
            value_view(value) == Some(value_str@),
        {
            Some(value_str.clone())
        };
    parse_field(field_name, index, content, parse_value, result)
}

/// Unites two lists: the texts of both, sorted, each once. What travels with
/// the second list goes with the result.
pub fn merge_list<U>(x: (Vec<Vec<char>>, ()), y: (Vec<Vec<char>>, U)) -> (r: (
    Vec<Vec<char>>,
    U,
))
    ensures
        views(r.0@) == sort_dedup(views(x.0@) + views(y.0@)),
        r.1 == y.1,
{
    let mut all = x.0;
    let mut other = y.0;
    all.append(&mut other);
    assert(views(all@) =~= views(x.0@) + views(y.0@));
    (sort_texts(all), y.1)
}

/// Unites two values of a key that takes one: the one that is set. Two that
/// are set and differ are a conflict, reported under `field_name`.
pub fn merge_single_value<U>(
    field_name: &str,
    x: (Option<Vec<char>>, ()),
    y: (Option<Vec<char>>, U),
) -> (r: Result<(Option<Vec<char>>, U), MergeError>)
    ensures
        match r {
            Ok(m) => {
                &&& !conflicting(value_view(x.0), value_view(y.0))
                &&& value_view(m.0) == either(value_view(x.0), value_view(y.0))
                &&& m.1 == y.1
            },
            Err(MergeError::MergeConflict { reason }) => {
                &&& conflicting(value_view(x.0), value_view(y.0))
                &&& reason@ == conflict_reason(field_name@)
            },
        },
{
    match (x.0, y.0) {
        (None, None) => Ok((None, y.1)),
        (Some(xv), None) => Ok((Some(xv), y.1)),
        (None, Some(yv)) => Ok((Some(yv), y.1)),
        (Some(xv), Some(yv)) => {
            if same_text(&xv, &yv) {
                Ok((Some(xv), y.1))
            } else {
                Err(
                    MergeError::MergeConflict {
                        reason: String::from_str("Conflicting values set for ").concat(
                            field_name,
                        ),
                    },
                )
            }
        },
    }
}

/// Unites the values of `x` with those of `y`; what travels with the values
/// of `y` goes with the result. Fails where the hooks conflict.
pub fn merge<Ext>(x: NixConfExt<()>, y: NixConfExt<Ext>) -> (r: Result<
    NixConfExt<Ext>,
    MergeError,
>)
    ensures
        match r {
            Ok(m) => {
                &&& !conflicting(x.values().post_build_hook, y.values().post_build_hook)
                &&& m.values() == merged(x.values(), y.values())
                &&& m.substituters.1 == y.substituters.1
                &&& m.trusted_public_keys.1 == y.trusted_public_keys.1
                &&& m.post_build_hook.1 == y.post_build_hook.1
                &&& m.secret_key_files.1 == y.secret_key_files.1
            },
            Err(MergeError::MergeConflict { reason }) => {
                &&& conflicting(x.values().post_build_hook, y.values().post_build_hook)
                &&& reason@ == conflict_reason("post_build_hook"@)
            },
        },
{
    let substituters = merge_list(x.substituters, y.substituters);
    let trusted_public_keys = merge_list(x.trusted_public_keys, y.trusted_public_keys);
    let post_build_hook = match merge_single_value(
        "post_build_hook",
        x.post_build_hook,
        y.post_build_hook,
    ) {
        Ok(value) => value,
        Err(e) => {
            return Err(e);
        },
    };
    let secret_key_files = merge_list(x.secret_key_files, y.secret_key_files);
    Ok(NixConfExt { substituters, trusted_public_keys, post_build_hook, secret_key_files })
}

/// Puts each of `new_lines` into `old_lines`: over the line at its index, or
/// behind the last line if it has none.
pub fn merge_lines(old_lines: Vec<Vec<char>>, new_lines: Vec<Line>) -> (lines: Vec<Vec<char>>)
    requires
        forall|k: int|
            0 <= k < new_lines.len() ==> (#[trigger] new_lines[k].index matches Some(i) ==> i
                < old_lines.len()),
    ensures
        views(lines@) == put_all(views(old_lines@), line_views(new_lines@)),
{
    let mut lines = old_lines;
    let ghost entries = line_views(new_lines@);
    assert(entries.take(0) =~= Seq::<(Option<int>, Seq<char>)>::empty());
    for line in it: new_lines
        invariant
            it.seq() == new_lines@,
            entries == line_views(new_lines@),
            lines.len() >= old_lines.len(),
            forall|k: int|
                0 <= k < new_lines.len() ==> (#[trigger] new_lines[k].index matches Some(i) ==> i
                    < old_lines.len()),
            views(lines@) == put_all(views(old_lines@), entries.take(it.index() as int)),
    {
        proof {
            let n = it.index() as int;
            assert(entries.take(n + 1).drop_last() =~= entries.take(n));
            assert(entries.take(n + 1).last() == new_lines@[n]@);
            assert(line == new_lines@[n]);
        }
        let ghost before = views(lines@);
        match line.index {
            Some(index) => {
                lines[index] = line.content;
                assert(views(lines@) =~= before.update(index as int, line.content@));
            },
            None => {
                lines.push(line.content);
                assert(views(lines@) =~= before.push(line.content@));
            },
        }
    }
    assert(entries.take(entries.len() as int) =~= entries);
    lines
}

/// The line that holds `content`: `line` with its text replaced, or a line
/// that has no place yet. No line where there is no content.
pub fn new_line_from_content(content: Option<Vec<char>>, line: Option<Line>) -> (r: Option<Line>)
    ensures
        match content {
            Some(text) => r matches Some(l) && l@ == (line_index(line), text@),
            None => r is None,
        },
{
    match content {
        Some(content) => {
            let index = match line {
                Some(line) => line.index,
                None => None,
            };
            Some(Line { index, content })
        },
        None => None,
    }
}

/// The line that sets the list `field_name` to the given values, separated by
/// blanks; it stands where the values' line stood. No line for an empty list.
pub fn render_list(field_name: &str, conf_entry_ext: (Vec<Vec<char>>, Option<Line>)) -> (r: Option<
    Line,
>)
    ensures
        match r {
            Some(l) => seq![l@],
            None => Seq::empty(),
        } == list_entry(line_index(conf_entry_ext.1), field_name@, views(conf_entry_ext.0@)),
{
    let (values, line) = conf_entry_ext;
    let content = if values.len() == 0 {
        None
    } else {
        let mut text = prefix_of(field_name);
        let mut blank: Vec<char> = Vec::new();
        blank.push(' ');
        assert(blank@ =~= seq![' ']);
        let joined = join_with(&values, &blank);
        append_text(&mut text, &joined);
        Some(text)
    };
    new_line_from_content(content, line)
}

/// The line that sets the key `field_name` to the given value, as it stands;
/// it stands where the value's line stood. No line for a value not set.
pub fn render_single_value(
    field_name: &str,
    conf_entry_ext: (Option<Vec<char>>, Option<Line>),
) -> (r: Option<Line>)
    ensures
        match r {
            Some(l) => seq![l@],
            None => Seq::empty(),
        } == value_entry(line_index(conf_entry_ext.1), field_name@, value_view(conf_entry_ext.0)),
{
    let (value, line) = conf_entry_ext;
    let content = match value {
        Some(value) => {
            let mut text = prefix_of(field_name);
            append_text(&mut text, &value);
            Some(text)
        },
        None => None,
    };
    new_line_from_content(content, line)
}

/// Whether `existing` is what reading `lines` one by one leaves: for each key
/// the value that the lines give it, with the line that gave it.
pub open spec fn read_from(existing: NixConfExt<Option<Line>>, lines: Seq<Seq<char>>) -> bool {
    &&& existing.values() == found(lines)
    &&& line_index(existing.substituters.1) == last_match(
        lines,
        field_prefix("substituters"@),
    )
    &&& line_index(existing.trusted_public_keys.1) == last_match(
        lines,
        field_prefix("trusted-public-keys"@),
    )
    &&& line_index(existing.post_build_hook.1) == last_match(
        lines,
        field_prefix("post-build-hook"@),
    )
    &&& line_index(existing.secret_key_files.1) == last_match(
        lines,
        field_prefix("secret-key-files"@),
    )
}

/// What one more line does to the last line that begins with `prefix`.
proof fn lemma_last_match_step(lines: Seq<Seq<char>>, n: int, prefix: Seq<char>)
    requires
        0 <= n < lines.len(),
    ensures
        last_match(lines.take(n + 1), prefix) == if prefix.is_prefix_of(lines[n]) {
            Some(n)
        } else {
            last_match(lines.take(n), prefix)
        },
        last_match(lines.take(n), prefix) matches Some(i) ==> 0 <= i < n && lines.take(n)[i]
            == lines.take(n + 1)[i],
{
    assert(lines.take(n + 1).drop_last() =~= lines.take(n));
    lemma_last_match_in_range(lines.take(n), prefix);
}

/// A copy of `texts`.
pub fn clone_texts(texts: &Vec<Vec<char>>) -> (copy: Vec<Vec<char>>)
    ensures
        views(copy@) == views(texts@),
{
    let mut copy: Vec<Vec<char>> = Vec::new();
    let mut i: usize = 0;
    while i < texts.len()
        invariant
            i <= texts.len(),
            views(copy@) == views(texts@).take(i as int),
        decreases texts.len() - i,
    {
        let text = clone_text(&texts[i]);
        proof {
            lemma_views_push(copy@, text);
            assert(views(texts@).take(i + 1) =~= views(texts@).take(i as int).push(text@));
        }
        copy.push(text);
        i += 1;
    }
    assert(views(texts@).take(texts.len() as int) =~= views(texts@));
    copy
}

/// The texts of `strings`, each as its characters.
pub fn texts_of(strings: &Vec<String>) -> (texts: Vec<Vec<char>>)
    ensures
        views(texts@) == string_views(strings@),
{
    let mut texts: Vec<Vec<char>> = Vec::new();
    let mut i: usize = 0;
    while i < strings.len()
        invariant
            i <= strings.len(),
            views(texts@) == string_views(strings@).take(i as int),
        decreases strings.len() - i,
    {
        let text = to_chars(strings[i].as_str());
        proof {
            lemma_views_push(texts@, text);
            assert(string_views(strings@).take(i + 1) =~= string_views(strings@).take(
                i as int,
            ).push(text@));
        }
        texts.push(text);
        i += 1;
    }
    assert(string_views(strings@).take(strings.len() as int) =~= string_views(strings@));
    texts
}

/// Adds `line`, if there is one, to `list`.
fn collect(list: &mut Vec<Line>, line: Option<Line>)
    ensures
        final(list)@ == old(list)@ + match line {
            Some(l) => seq![l],
            None => Seq::empty(),
        },
{
    match line {
        Some(l) => {
            list.push(l);
            assert(list@ =~= old(list)@ + seq![l]);
        },
        None => {
            assert(list@ =~= old(list)@ + Seq::<Line>::empty());
        },
    }
}

impl View for NixConf {
    type V = NixConfView;

    closed spec fn view(&self) -> NixConfView {
        self.0.values()
    }
}

impl Clone for NixConf {
    fn clone(&self) -> (r: Self)
        ensures
            r@ == self@,
    {
        NixConf(
            NixConfExt {
                substituters: (clone_texts(&self.0.substituters.0), ()),
                trusted_public_keys: (clone_texts(&self.0.trusted_public_keys.0), ()),
                post_build_hook: (
                    match &self.0.post_build_hook.0 {
                        Some(hook) => Some(clone_text(hook)),
                        None => None,
                    },
                    (),
                ),
                secret_key_files: (clone_texts(&self.0.secret_key_files.0), ()),
            },
        )
    }
}

impl Default for NixConf {
    fn default() -> (r: Self)
        ensures
            r@ == empty_conf(),
    {
        NixConf::new()
    }
}

impl NixConf {
    /// The declaration that sets no key.
    pub fn new() -> (r: Self)
        ensures
            r@ == empty_conf(),
    {
        let unit = || -> (u: ()) { () };
        Self(NixConfExt::new(unit))
    }

    /// The same declaration with `substituters` as its list of substituters.
    pub fn with_substituters(self, substituters: Vec<String>) -> (r: Self)
        ensures
            r@ == (NixConfView { substituters: string_views(substituters@), ..self@ }),
    {
        let mut conf = self;
        conf.0.substituters.0 = texts_of(&substituters);
        conf
    }

    /// The same declaration with `trusted_public_keys` as its list of keys.
    pub fn with_trusted_public_keys(self, trusted_public_keys: Vec<String>) -> (r: Self)
        ensures
            r@ == (NixConfView {
                trusted_public_keys: string_views(trusted_public_keys@),
                ..self@
            }),
    {
        let mut conf = self;
        conf.0.trusted_public_keys.0 = texts_of(&trusted_public_keys);
        conf
    }

    /// The same declaration with `post_build_hook` as its hook.
    pub fn with_post_build_hook(self, post_build_hook: String) -> (r: Self)
        ensures
            r@ == (NixConfView { post_build_hook: Some(post_build_hook@), ..self@ }),
    {
        let mut conf = self;
        conf.0.post_build_hook.0 = Some(to_chars(post_build_hook.as_str()));
        conf
    }

    /// The same declaration with `secret_key_files` as its list of key files.
    pub fn with_secret_key_files(self, secret_key_files: Vec<String>) -> (r: Self)
        ensures
            r@ == (NixConfView { secret_key_files: string_views(secret_key_files@), ..self@ }),
    {
        let mut conf = self;
        conf.0.secret_key_files.0 = texts_of(&secret_key_files);
        conf
    }

    /// The mode bits that the file gets when it is written.
    pub fn file_permission(&self) -> (mode: u32)
        ensures
            mode == NIX_CONF_MODE,
    {
        NIX_CONF_MODE
    }

    /// The text that a file with `text` must hold instead, or `None` where it
    /// holds it already. Fails where the file sets another hook than the
    /// declaration.
    pub fn patch(&self, text: Vec<char>) -> (r: Result<Option<Vec<char>>, MergeError>)
        ensures
            match r {
                Ok(new_text) => {
                    &&& !conflicting(self@.post_build_hook, found(lines(text@)).post_build_hook)
                    &&& match new_text {
                        None => patched_text(self@, text@) == text@,
                        Some(chars) => chars@ == patched_text(self@, text@) && chars@ != text@,
                    }
                },
                Err(MergeError::MergeConflict { reason }) => {
                    &&& conflicting(self@.post_build_hook, found(lines(text@)).post_build_hook)
                    &&& reason@ == conflict_reason("post_build_hook"@)
                },
            },
    {
        let lines = split_lines(&text);
        let no_line = || -> (line: Option<Line>)
            ensures
                line is None,
            {
                None
            };
        let mut existing_config: NixConfExt<Option<Line>> = NixConfExt::new(no_line);
        let mut index: usize = 0;
        assert(views(lines@).take(0) =~= Seq::<Seq<char>>::empty());
        while index < lines.len()
            invariant
                index <= lines.len(),
                read_from(existing_config, views(lines@).take(index as int)),
            decreases lines.len() - index,
        {
            let content = &lines[index];
            proof {
                let all = views(lines@);
                lemma_last_match_step(all, index as int, field_prefix("substituters"@));
                lemma_last_match_step(all, index as int, field_prefix("trusted-public-keys"@));
                lemma_last_match_step(all, index as int, field_prefix("post-build-hook"@));
                lemma_last_match_step(all, index as int, field_prefix("secret-key-files"@));
            }
            parse_list("substituters", index, content, &mut existing_config.substituters);
            parse_list(
                "trusted-public-keys",
                index,
                content,
                &mut existing_config.trusted_public_keys,
            );
            parse_single_value(
                "post-build-hook",
                index,
                content,
                &mut existing_config.post_build_hook,
            );
            parse_list("secret-key-files", index, content, &mut existing_config.secret_key_files);
            index += 1;
        }
        assert(views(lines@).take(lines.len() as int) =~= views(lines@));
        proof {
            let all = views(lines@);
            lemma_last_match_in_range(all, field_prefix("substituters"@));
            lemma_last_match_in_range(all, field_prefix("trusted-public-keys"@));
            lemma_last_match_in_range(all, field_prefix("post-build-hook"@));
            lemma_last_match_in_range(all, field_prefix("secret-key-files"@));
        }
        let new_config = match merge(self.clone().0, existing_config) {
            Ok(new_config) => new_config,
            Err(e) => {
                return Err(e);
            },
        };
        let mut new_lines: Vec<Line> = Vec::new();
        collect(&mut new_lines, render_list("substituters", new_config.substituters));
        collect(&mut new_lines, render_list("trusted-public-keys", new_config.trusted_public_keys));
        collect(&mut new_lines, render_single_value("post-build-hook", new_config.post_build_hook));
        collect(&mut new_lines, render_list("secret-key-files", new_config.secret_key_files));
        assert(line_views(new_lines@) =~= rendered(self@, views(lines@)));
        assert forall|k: int| 0 <= k < new_lines.len() implies (
        #[trigger] new_lines[k].index matches Some(i) ==> i < lines.len()) by {
            let entry = line_views(new_lines@)[k];
            assert(entry == new_lines[k]@);
            let all = views(lines@);
            assert(entry.0 == last_match(all, field_prefix("substituters"@)) || entry.0
                == last_match(all, field_prefix("trusted-public-keys"@)) || entry.0 == last_match(
                all,
                field_prefix("post-build-hook"@),
            ) || entry.0 == last_match(all, field_prefix("secret-key-files"@)));
        }
        let lines = merge_lines(lines, new_lines);
        let mut line_feed: Vec<char> = Vec::new();
        line_feed.push('\n');
        assert(line_feed@ =~= seq!['\n']);
        let new_content = join_with(&lines, &line_feed);
        if same_text(&text, &new_content) {
            Ok(None)
        } else {
            Ok(Some(new_content))
        }
    }

    /// The bytes that a file with `old_content` must hold instead, or `None`
    /// where it holds them already. The file is read as UTF-8 text; every
    /// line that sets none of the four keys stays as it is.
    pub fn apply(&self, old_content: &[u8]) -> (r: Result<Option<Vec<u8>>, ApplyError>)
        ensures
            is_outcome(r, applied(self@, old_content@), old_content@),
    {
        let consume = |text: Vec<char>| -> (r: Result<Option<Vec<char>>, MergeError>)
            ensures
                match r {
                    Ok(new_text) => {
                        &&& !conflicting(
                            self@.post_build_hook,
                            found(lines(text@)).post_build_hook,
                        )
                        &&& match new_text {
                            None => patched_text(self@, text@) == text@,
                            Some(chars) => chars@ == patched_text(self@, text@) && chars@
                                != text@,
                        }
                    },
                    Err(MergeError::MergeConflict { reason }) => {
                        &&& conflicting(
                            self@.post_build_hook,
                            found(lines(text@)).post_build_hook,
                        )
                        &&& reason@ == conflict_reason("post_build_hook"@)
                    },
                },
            {
                self.patch(text)
            };
        let r = apply_utf8(old_content, consume);
        proof {
            if valid_utf8(old_content@) {
                let text = decode_utf8(old_content@);
                if patched_text(self@, text) != text {
                    // two texts that differ differ in UTF-8 too
                    encode_utf8_decode_utf8(text);
                    encode_utf8_decode_utf8(patched_text(self@, text));
                }
            }
        }
        r
    }

    /// Takes `y` into this declaration: lists are united, and the hook is the
    /// one that is set. Where both set a hook and the two differ, nothing
    /// changes and the conflict is reported.
    pub fn merge(&mut self, y: NixConf) -> (r: Result<(), MergeError>)
        ensures
            match r {
                Ok(_) => {
                    &&& !conflicting(old(self)@.post_build_hook, y@.post_build_hook)
                    &&& final(self)@ == merged(old(self)@, y@)
                },
                Err(MergeError::MergeConflict { reason }) => {
                    &&& conflicting(old(self)@.post_build_hook, y@.post_build_hook)
                    &&& reason@ == conflict_reason("post_build_hook"@)
                    &&& *final(self) == *old(self)
                },
            },
    {
        match merge(self.clone().0, y.0) {
            Ok(united) => {
                self.0 = united;
                Ok(())
            },
            Err(e) => Err(e),
        }
    }
}

/// Two lists unite to the same list in either order.
pub proof fn lemma_union_commutes(a: Seq<Seq<char>>, b: Seq<Seq<char>>)
    ensures
        sort_dedup(a + b) == sort_dedup(b + a),
{
    lemma_sort_dedup(a + b);
    lemma_sort_dedup(b + a);
    assert forall|y: Seq<char>|
        #![trigger sort_dedup(a + b).contains(y)]
        #![trigger sort_dedup(b + a).contains(y)]
        sort_dedup(a + b).contains(y) <==> sort_dedup(b + a).contains(y) by {
        lemma_concat_contains(a, b, y);
        lemma_concat_contains(b, a, y);
    }
    lemma_sorted_unique(sort_dedup(a + b), sort_dedup(b + a));
}

/// What stands in `a + b` stands in `a` or in `b`.
pub proof fn lemma_concat_contains(a: Seq<Seq<char>>, b: Seq<Seq<char>>, y: Seq<char>)
    ensures
        (a + b).contains(y) <==> (a.contains(y) || b.contains(y)),
{
    if (a + b).contains(y) {
        let k = choose|k: int| 0 <= k < (a + b).len() && (a + b)[k] == y;
        if k < a.len() {
            assert(a[k] == y);
        } else {
            assert(b[k - a.len()] == y);
        }
    }
    if a.contains(y) {
        let k = choose|k: int| 0 <= k < a.len() && a[k] == y;
        assert((a + b)[k] == y);
    }
    if b.contains(y) {
        let k = choose|k: int| 0 <= k < b.len() && b[k] == y;
        assert((a + b)[k + a.len()] == y);
    }
}

/// Merging is the same in either order: the lists of two declarations unite
/// to the same sorted lists whichever is taken into the other, and so does
/// the hook where the two do not conflict.
pub proof fn lemma_merged_commutes(a: NixConfView, b: NixConfView)
    ensures
        merged(a, b).substituters == merged(b, a).substituters,
        merged(a, b).trusted_public_keys == merged(b, a).trusted_public_keys,
        merged(a, b).secret_key_files == merged(b, a).secret_key_files,
        conflicting(a.post_build_hook, b.post_build_hook) == conflicting(
            b.post_build_hook,
            a.post_build_hook,
        ),
        !conflicting(a.post_build_hook, b.post_build_hook) ==> merged(a, b) == merged(b, a),
{
    lemma_union_commutes(a.substituters, b.substituters);
    lemma_union_commutes(a.trusted_public_keys, b.trusted_public_keys);
    lemma_union_commutes(a.secret_key_files, b.secret_key_files);
}

/// The lists of a merged declaration are sorted, hold no text twice, and hold
/// the texts of the two declarations, no others.
pub proof fn lemma_merged_lists(a: NixConfView, b: NixConfView)
    ensures
        strictly_sorted(merged(a, b).substituters),
        strictly_sorted(merged(a, b).trusted_public_keys),
        strictly_sorted(merged(a, b).secret_key_files),
        forall|y: Seq<char>|
            merged(a, b).substituters.contains(y) <==> (a.substituters.contains(y)
                || b.substituters.contains(y)),
        forall|y: Seq<char>|
            merged(a, b).trusted_public_keys.contains(y) <==> (a.trusted_public_keys.contains(y)
                || b.trusted_public_keys.contains(y)),
        forall|y: Seq<char>|
            merged(a, b).secret_key_files.contains(y) <==> (a.secret_key_files.contains(y)
                || b.secret_key_files.contains(y)),
{
    lemma_sort_dedup(a.substituters + b.substituters);
    lemma_sort_dedup(a.trusted_public_keys + b.trusted_public_keys);
    lemma_sort_dedup(a.secret_key_files + b.secret_key_files);
    assert forall|y: Seq<char>|
        merged(a, b).substituters.contains(y) <==> (a.substituters.contains(y)
            || b.substituters.contains(y)) by {
        lemma_concat_contains(a.substituters, b.substituters, y);
    }
    assert forall|y: Seq<char>|
        merged(a, b).trusted_public_keys.contains(y) <==> (a.trusted_public_keys.contains(y)
            || b.trusted_public_keys.contains(y)) by {
        lemma_concat_contains(a.trusted_public_keys, b.trusted_public_keys, y);
    }
    assert forall|y: Seq<char>|
        merged(a, b).secret_key_files.contains(y) <==> (a.secret_key_files.contains(y)
            || b.secret_key_files.contains(y)) by {
        lemma_concat_contains(a.secret_key_files, b.secret_key_files, y);
    }
}

} // verus!
