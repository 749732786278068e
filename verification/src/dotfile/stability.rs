//! What the patcher leaves alone: lines that set no key of the schema, and
//! a file that it has patched before.

use super::nix_conf::{
    applied, conflicting, either, field_prefix, found, last_match, lemma_concat_contains,
    lemma_last_match_in_range, list_entry, list_in, merged, patched_lines, patched_text, put,
    put_all, rendered, separator, value_entry, value_in, NixConfView,
};
use super::Applied;
use crate::text::{
    are_plain_lines, is_plain_line, is_word, join, lemma_lines_of_joined, lemma_sort_dedup,
    lemma_sorted_unique, lemma_without_empty, lemma_words_are_words, lemma_words_of_joined, lines,
    sort_dedup, unbroken, without_empty, words,
};
use vstd::prelude::*;
use vstd::utf8::*;

verus! {

/// A line to put, with its place.
pub type Entry = (Option<int>, Seq<char>);

/// Putting two lists of lines is putting the first, then the second.
pub proof fn lemma_put_all_concat(lines: Seq<Seq<char>>, a: Seq<Entry>, b: Seq<Entry>)
    ensures
        put_all(lines, a + b) == put_all(put_all(lines, a), b),
    decreases b.len(),
{
    if b.len() == 0 {
        assert(a + b =~= a);
    } else {
        assert((a + b).drop_last() =~= a + b.drop_last());
        assert((a + b).last() == b.last());
        lemma_put_all_concat(lines, a, b.drop_last());
    }
}

/// Putting at most one line: nothing, or that line.
pub proof fn lemma_put_all_short(lines: Seq<Seq<char>>, e: Seq<Entry>)
    requires
        e.len() <= 1,
    ensures
        put_all(lines, e) == if e.len() == 0 {
            lines
        } else {
            put(lines, e[0])
        },
{
    if e.len() == 1 {
        assert(e.drop_last().len() == 0);
        assert(put_all(lines, e.drop_last()) == lines);
    }
}

/// Whether `line` sets one of the four keys of the schema.
pub open spec fn sets_some_key(line: Seq<char>) -> bool {
    ||| field_prefix("substituters"@).is_prefix_of(line)
    ||| field_prefix("trusted-public-keys"@).is_prefix_of(line)
    ||| field_prefix("post-build-hook"@).is_prefix_of(line)
    ||| field_prefix("secret-key-files"@).is_prefix_of(line)
}

/// The lines of `e` stand at places of `lines` that set a key, or nowhere yet.
pub open spec fn at_key_lines(lines: Seq<Seq<char>>, e: Seq<Entry>) -> bool {
    forall|k: int|
        0 <= k < e.len() ==> ((#[trigger] e[k]).0 matches Some(i) ==> 0 <= i < lines.len()
            && sets_some_key(lines[i]))
}

/// Putting lines at places that set a key leaves every other line where and
/// as it is.
pub proof fn lemma_put_all_keeps(lines: Seq<Seq<char>>, e: Seq<Entry>, i: int)
    requires
        at_key_lines(lines, e),
        0 <= i < lines.len(),
        !sets_some_key(lines[i]),
    ensures
        put_all(lines, e).len() >= lines.len(),
        put_all(lines, e)[i] == lines[i],
    decreases e.len(),
{
    if e.len() > 0 {
        assert forall|k: int| 0 <= k < e.drop_last().len() implies ((#[trigger] e.drop_last()[k]).0
            matches Some(j) ==> 0 <= j < lines.len() && sets_some_key(lines[j])) by {
            assert(e.drop_last()[k] == e[k]);
        }
        lemma_put_all_keeps(lines, e.drop_last(), i);
        assert(e[e.len() - 1] == e.last());
    }
}

/// The lines that a declaration asks for stand at lines that set a key.
pub proof fn lemma_rendered_at_key_lines(conf: NixConfView, lines: Seq<Seq<char>>)
    ensures
        at_key_lines(lines, rendered(conf, lines)),
{
    lemma_last_match_in_range(lines, field_prefix("substituters"@));
    lemma_last_match_in_range(lines, field_prefix("trusted-public-keys"@));
    lemma_last_match_in_range(lines, field_prefix("post-build-hook"@));
    lemma_last_match_in_range(lines, field_prefix("secret-key-files"@));
    let e = rendered(conf, lines);
    assert forall|k: int| 0 <= k < e.len() implies ((#[trigger] e[k]).0 matches Some(i) ==> 0 <= i
        < lines.len() && sets_some_key(lines[i])) by {
        assert(e[k].0 == last_match(lines, field_prefix("substituters"@)) || e[k].0 == last_match(
            lines,
            field_prefix("trusted-public-keys"@),
        ) || e[k].0 == last_match(lines, field_prefix("post-build-hook"@)) || e[k].0
            == last_match(lines, field_prefix("secret-key-files"@)));
    }
}

/// A line of the file that sets none of the four keys stands in the patched
/// file where it stood, unchanged; so all such lines keep their order.
pub proof fn lemma_other_lines_kept(conf: NixConfView, text: Seq<char>, i: int)
    requires
        0 <= i < lines(text).len(),
        !sets_some_key(lines(text)[i]),
    ensures
        patched_lines(conf, lines(text)).len() >= lines(text).len(),
        patched_lines(conf, lines(text))[i] == lines(text)[i],
{
    lemma_rendered_at_key_lines(conf, lines(text));
    lemma_put_all_keeps(lines(text), rendered(conf, lines(text)), i);
}

/// The character of a line at a place inside a prefix of it.
proof fn lemma_prefix_char(prefix: Seq<char>, line: Seq<char>, k: int)
    requires
        prefix.is_prefix_of(line),
        0 <= k < prefix.len(),
    ensures
        line[k] == prefix[k],
{
    assert(line.subrange(0, prefix.len() as int)[k] == line[k]);
}

/// No line sets two keys of the schema: the four keys begin differently.
pub proof fn lemma_keys_apart(line: Seq<char>)
    ensures
        !(field_prefix("substituters"@).is_prefix_of(line) && field_prefix(
            "trusted-public-keys"@,
        ).is_prefix_of(line)),
        !(field_prefix("substituters"@).is_prefix_of(line) && field_prefix(
            "post-build-hook"@,
        ).is_prefix_of(line)),
        !(field_prefix("substituters"@).is_prefix_of(line) && field_prefix(
            "secret-key-files"@,
        ).is_prefix_of(line)),
        !(field_prefix("trusted-public-keys"@).is_prefix_of(line) && field_prefix(
            "post-build-hook"@,
        ).is_prefix_of(line)),
        !(field_prefix("trusted-public-keys"@).is_prefix_of(line) && field_prefix(
            "secret-key-files"@,
        ).is_prefix_of(line)),
        !(field_prefix("post-build-hook"@).is_prefix_of(line) && field_prefix(
            "secret-key-files"@,
        ).is_prefix_of(line)),
{
    reveal_strlit("substituters");
    reveal_strlit("trusted-public-keys");
    reveal_strlit("post-build-hook");
    reveal_strlit("secret-key-files");
    let a = field_prefix("substituters"@);
    let b = field_prefix("trusted-public-keys"@);
    let c = field_prefix("post-build-hook"@);
    let d = field_prefix("secret-key-files"@);
    assert(a[0] == 's' && a[1] == 'u');
    assert(b[0] == 't');
    assert(c[0] == 'p');
    assert(d[0] == 's' && d[1] == 'e');
    if a.is_prefix_of(line) {
        lemma_prefix_char(a, line, 0);
        lemma_prefix_char(a, line, 1);
    }
    if b.is_prefix_of(line) {
        lemma_prefix_char(b, line, 0);
    }
    if c.is_prefix_of(line) {
        lemma_prefix_char(c, line, 0);
    }
    if d.is_prefix_of(line) {
        lemma_prefix_char(d, line, 0);
        lemma_prefix_char(d, line, 1);
    }
}

/// What changing or adding lines that do not begin with `prefix` does to the
/// last line that does: nothing.
pub proof fn lemma_last_match_kept(
    before: Seq<Seq<char>>,
    after: Seq<Seq<char>>,
    prefix: Seq<char>,
)
    requires
        after.len() >= before.len(),
        forall|i: int|
            0 <= i < before.len() ==> (prefix.is_prefix_of(#[trigger] before[i])
                <==> prefix.is_prefix_of(after[i])),
        forall|i: int|
            0 <= i < before.len() && prefix.is_prefix_of(#[trigger] before[i]) ==> after[i]
                == before[i],
        forall|i: int| before.len() <= i < after.len() ==> !prefix.is_prefix_of(#[trigger] after[i]),
    ensures
        last_match(after, prefix) == last_match(before, prefix),
        last_match(before, prefix) matches Some(i) ==> after[i] == before[i],
    decreases after.len(),
{
    lemma_last_match_in_range(before, prefix);
    if after.len() == 0 {
        assert(before.len() == 0);
    } else if after.len() > before.len() {
        let init = after.drop_last();
        assert(!prefix.is_prefix_of(after[after.len() - 1]));
        assert forall|i: int| 0 <= i < before.len() implies (prefix.is_prefix_of(
            #[trigger] before[i],
        ) <==> prefix.is_prefix_of(init[i])) by {
            assert(init[i] == after[i]);
        }
        assert forall|i: int|
            0 <= i < before.len() && prefix.is_prefix_of(#[trigger] before[i]) implies init[i]
            == before[i] by {
            assert(init[i] == after[i]);
        }
        assert forall|i: int| before.len() <= i < init.len() implies !prefix.is_prefix_of(
            #[trigger] init[i],
        ) by {
            assert(init[i] == after[i]);
        }
        lemma_last_match_kept(before, init, prefix);
    } else {
        let n = before.len() - 1;
        assert(prefix.is_prefix_of(before[n]) <==> prefix.is_prefix_of(after[n]));
        if !prefix.is_prefix_of(before[n]) {
            let b = before.drop_last();
            let a = after.drop_last();
            assert forall|i: int| 0 <= i < b.len() implies (prefix.is_prefix_of(#[trigger] b[i])
                <==> prefix.is_prefix_of(a[i])) by {
                assert(b[i] == before[i] && a[i] == after[i]);
            }
            assert forall|i: int|
                0 <= i < b.len() && prefix.is_prefix_of(#[trigger] b[i]) implies a[i] == b[i] by {
                assert(b[i] == before[i] && a[i] == after[i]);
            }
            lemma_last_match_kept(b, a, prefix);
            lemma_last_match_in_range(b, prefix);
        }
    }
}

/// A line put for a key is the last line that sets that key afterwards.
pub proof fn lemma_put_own(lines: Seq<Seq<char>>, prefix: Seq<char>, content: Seq<char>)
    requires
        prefix.is_prefix_of(content),
    ensures
        ({
            let at = last_match(lines, prefix);
            let after = put(lines, (at, content));
            &&& last_match(after, prefix) matches Some(i)
            &&& 0 <= i < after.len()
            &&& after[i] == content
            &&& after.len() >= lines.len()
            &&& at matches Some(j) ==> i == j && after.len() == lines.len()
            &&& at is None ==> i == lines.len()
        }),
    decreases lines.len(),
{
    let at = last_match(lines, prefix);
    let after = put(lines, (at, content));
    lemma_last_match_in_range(lines, prefix);
    match at {
        None => {
            assert(after.last() == content);
            assert(after.drop_last() =~= lines);
        },
        Some(j) => {
            if j == lines.len() - 1 {
                assert(after.last() == content);
            } else {
                assert(!prefix.is_prefix_of(lines.last()));
                assert(after.last() == lines.last());
                assert(last_match(lines.drop_last(), prefix) == Some(j));
                lemma_put_own(lines.drop_last(), prefix, content);
                assert(after.drop_last() =~= put(lines.drop_last(), (Some(j), content)));
            }
        },
    }
}

/// The last line that begins with `prefix`, if there is one.
pub open spec fn key_line(lines: Seq<Seq<char>>, prefix: Seq<char>) -> Option<Seq<char>> {
    match last_match(lines, prefix) {
        Some(i) => Some(lines[i]),
        None => None,
    }
}

/// No line begins with both prefixes.
pub open spec fn apart(a: Seq<char>, b: Seq<char>) -> bool {
    forall|line: Seq<char>| !(#[trigger] a.is_prefix_of(line) && b.is_prefix_of(line))
}

/// What putting the line of one key does: that line becomes the last line of
/// its key, and another key keeps its last line.
pub proof fn lemma_stage(lines: Seq<Seq<char>>, e: Seq<Entry>, own: Seq<char>, other: Seq<char>)
    requires
        e.len() <= 1,
        e.len() == 1 ==> e[0].0 == last_match(lines, own) && own.is_prefix_of(e[0].1),
        apart(own, other),
    ensures
        put_all(lines, e).len() >= lines.len(),
        last_match(put_all(lines, e), other) == last_match(lines, other),
        key_line(put_all(lines, e), other) == key_line(lines, other),
        e.len() == 0 ==> put_all(lines, e) == lines,
        e.len() == 1 ==> key_line(put_all(lines, e), own) == Some(e[0].1),
{
    lemma_put_all_short(lines, e);
    if e.len() == 1 {
        let after = put(lines, e[0]);
        let content = e[0].1;
        lemma_put_own(lines, own, content);
        lemma_last_match_in_range(lines, own);
        assert(own.is_prefix_of(content));
        assert(!other.is_prefix_of(content));
        assert forall|i: int| 0 <= i < lines.len() implies (other.is_prefix_of(
            #[trigger] lines[i],
        ) <==> other.is_prefix_of(after[i])) by {
            if e[0].0 == Some(i) {
                assert(own.is_prefix_of(lines[i]));
                assert(!other.is_prefix_of(lines[i]));
            }
        }
        assert forall|i: int|
            0 <= i < lines.len() && other.is_prefix_of(#[trigger] lines[i]) implies after[i]
            == lines[i] by {
            if e[0].0 == Some(i) {
                assert(own.is_prefix_of(lines[i]));
            }
        }
        assert forall|i: int| lines.len() <= i < after.len() implies !other.is_prefix_of(
            #[trigger] after[i],
        ) by {
            assert(after[i] == content);
        }
        lemma_last_match_kept(lines, after, other);
    }
}

/// Lines that stand where they are put change nothing.
pub proof fn lemma_put_all_same(lines: Seq<Seq<char>>, e: Seq<Entry>)
    requires
        forall|k: int|
            0 <= k < e.len() ==> ((#[trigger] e[k]).0 matches Some(i) && 0 <= i < lines.len()
                && lines[i] == e[k].1),
    ensures
        put_all(lines, e) == lines,
    decreases e.len(),
{
    if e.len() > 0 {
        assert forall|k: int| 0 <= k < e.drop_last().len() implies ((
        #[trigger] e.drop_last()[k]).0 matches Some(i) && 0 <= i < lines.len() && lines[i]
            == e.drop_last()[k].1) by {
            assert(e.drop_last()[k] == e[k]);
        }
        lemma_put_all_same(lines, e.drop_last());
        let last = e[e.len() - 1];
        assert(last == e.last());
        assert(put(lines, last) =~= lines);
    }
}

/// A united list is empty only if both lists are.
pub proof fn lemma_union_empty(d: Seq<Seq<char>>, e: Seq<Seq<char>>)
    requires
        sort_dedup(d + e).len() == 0,
    ensures
        d.len() == 0,
        e.len() == 0,
{
    lemma_sort_dedup(d + e);
    if d.len() > 0 {
        assert((d + e)[0] == d[0]);
        assert((d + e).contains(d[0]));
        assert(sort_dedup(d + e).contains(d[0]));
    }
    if e.len() > 0 {
        assert((d + e)[d.len() as int] == e[0]);
        assert((d + e).contains(e[0]));
        assert(sort_dedup(d + e).contains(e[0]));
    }
}

/// Lists without white space in their texts unite to such a list.
pub proof fn lemma_union_unbroken(d: Seq<Seq<char>>, e: Seq<Seq<char>>)
    requires
        forall|i: int| 0 <= i < d.len() ==> unbroken(#[trigger] d[i]),
        forall|i: int| 0 <= i < e.len() ==> unbroken(#[trigger] e[i]),
    ensures
        forall|i: int|
            0 <= i < sort_dedup(d + e).len() ==> unbroken(#[trigger] sort_dedup(d + e)[i]),
{
    let m = sort_dedup(d + e);
    lemma_sort_dedup(d + e);
    assert forall|i: int| 0 <= i < m.len() implies unbroken(#[trigger] m[i]) by {
        assert(m.contains(m[i]));
        assert((d + e).contains(m[i]));
        let k = choose|k: int| 0 <= k < (d + e).len() && (d + e)[k] == m[i];
        if k < d.len() {
            assert(unbroken(d[k]));
        } else {
            assert(unbroken(e[k - d.len()]));
        }
    }
}

/// A text begins with what it was built from.
proof fn lemma_prefix_of_concat(prefix: Seq<char>, rest: Seq<char>)
    ensures
        prefix.is_prefix_of(prefix + rest),
        (prefix + rest).skip(prefix.len() as int) == rest,
{
    assert((prefix + rest).subrange(0, prefix.len() as int) =~= prefix);
    assert((prefix + rest).skip(prefix.len() as int) =~= rest);
}

/// No list value of the declaration holds white space.
pub open spec fn lists_are_unbroken(conf: NixConfView) -> bool {
    &&& forall|i: int| 0 <= i < conf.substituters.len() ==> unbroken(#[trigger] conf.substituters[i])
    &&& forall|i: int|
        0 <= i < conf.trusted_public_keys.len() ==> unbroken(#[trigger] conf.trusted_public_keys[i])
    &&& forall|i: int|
        0 <= i < conf.secret_key_files.len() ==> unbroken(#[trigger] conf.secret_key_files[i])
}

/// What a patched file gives a list key: what the patch gave it.
proof fn lemma_list_key(
    name: Seq<char>,
    d: Seq<Seq<char>>,
    before: Seq<Seq<char>>,
    after: Seq<Seq<char>>,
)
    requires
        forall|i: int| 0 <= i < d.len() ==> unbroken(#[trigger] d[i]),
        ({
            let p = field_prefix(name);
            let m = sort_dedup(d + list_in(before, name));
            if m.len() > 0 {
                key_line(after, p) == Some(p + join(m, seq![' ']))
            } else {
                key_line(after, p) == key_line(before, p)
            }
        }),
    ensures
        sort_dedup(d + list_in(after, name)) == sort_dedup(d + list_in(before, name)),
        list_entry(last_match(after, field_prefix(name)), name, sort_dedup(d + list_in(after, name)))
            == list_entry(
            last_match(after, field_prefix(name)),
            name,
            sort_dedup(d + list_in(before, name)),
        ),
        sort_dedup(d + list_in(before, name)).len() > 0 ==> (last_match(
            after,
            field_prefix(name),
        ) matches Some(i) && 0 <= i < after.len() && after[i] == field_prefix(name) + join(
            sort_dedup(d + list_in(before, name)),
            seq![' '],
        )),
{
    let p = field_prefix(name);
    let e = list_in(before, name);
    let m = sort_dedup(d + e);
    lemma_last_match_in_range(after, p);
    lemma_last_match_in_range(before, p);
    if m.len() > 0 {
        let joined = join(m, seq![' ']);
        lemma_prefix_of_concat(p, joined);
        assert forall|i: int| 0 <= i < e.len() implies unbroken(#[trigger] e[i]) by {
            match last_match(before, p) {
                Some(j) => {
                    lemma_words_are_words(before[j].skip(p.len() as int));
                },
                None => {},
            }
        }
        lemma_union_unbroken(d, e);
        lemma_words_of_joined(m);
        let kept = without_empty(m);
        assert(list_in(after, name) == kept);
        lemma_sort_dedup(d + e);
        lemma_sort_dedup(d + kept);
        assert forall|y: Seq<char>|
            #![trigger sort_dedup(d + kept).contains(y)]
            #![trigger m.contains(y)]
            sort_dedup(d + kept).contains(y) <==> m.contains(y) by {
            lemma_concat_contains(d, kept, y);
            lemma_concat_contains(d, e, y);
            lemma_without_empty(m, y);
            if e.contains(y) {
                let k = choose|k: int| 0 <= k < e.len() && e[k] == y;
                match last_match(before, p) {
                    Some(j) => {
                        lemma_words_are_words(before[j].skip(p.len() as int));
                        assert(is_word(e[k]));
                    },
                    None => {},
                }
            }
        }
        lemma_sorted_unique(sort_dedup(d + kept), m);
    } else {
        lemma_union_empty(d, e);
        assert(list_in(after, name) == list_in(before, name));
    }
}

/// What a patched file gives the hook: what the patch gave it.
proof fn lemma_value_key(
    name: Seq<char>,
    d: Option<Seq<char>>,
    before: Seq<Seq<char>>,
    after: Seq<Seq<char>>,
)
    requires
        !conflicting(d, value_in(before, name)),
        ({
            let p = field_prefix(name);
            match either(d, value_in(before, name)) {
                Some(v) => key_line(after, p) == Some(p + v),
                None => key_line(after, p) == key_line(before, p),
            }
        }),
    ensures
        !conflicting(d, value_in(after, name)),
        either(d, value_in(after, name)) == either(d, value_in(before, name)),
        either(d, value_in(before, name)) matches Some(v) ==> (last_match(
            after,
            field_prefix(name),
        ) matches Some(i) && 0 <= i < after.len() && after[i] == field_prefix(name) + v),
{
    let p = field_prefix(name);
    lemma_last_match_in_range(after, p);
    lemma_last_match_in_range(before, p);
    match either(d, value_in(before, name)) {
        Some(v) => {
            lemma_prefix_of_concat(p, v);
            assert(value_in(after, name) == Some(v));
        },
        None => {
            assert(value_in(after, name) == value_in(before, name));
        },
    }
}

/// The four keys begin differently, each from each.
proof fn lemma_all_apart()
    ensures
        apart(field_prefix("substituters"@), field_prefix("trusted-public-keys"@)),
        apart(field_prefix("substituters"@), field_prefix("post-build-hook"@)),
        apart(field_prefix("substituters"@), field_prefix("secret-key-files"@)),
        apart(field_prefix("trusted-public-keys"@), field_prefix("substituters"@)),
        apart(field_prefix("trusted-public-keys"@), field_prefix("post-build-hook"@)),
        apart(field_prefix("trusted-public-keys"@), field_prefix("secret-key-files"@)),
        apart(field_prefix("post-build-hook"@), field_prefix("substituters"@)),
        apart(field_prefix("post-build-hook"@), field_prefix("trusted-public-keys"@)),
        apart(field_prefix("post-build-hook"@), field_prefix("secret-key-files"@)),
        apart(field_prefix("secret-key-files"@), field_prefix("substituters"@)),
        apart(field_prefix("secret-key-files"@), field_prefix("trusted-public-keys"@)),
        apart(field_prefix("secret-key-files"@), field_prefix("post-build-hook"@)),
{
    let a = field_prefix("substituters"@);
    let b = field_prefix("trusted-public-keys"@);
    let c = field_prefix("post-build-hook"@);
    let d = field_prefix("secret-key-files"@);
    assert forall|line: Seq<char>|
        !(a.is_prefix_of(line) && b.is_prefix_of(line)) && !(a.is_prefix_of(line)
            && c.is_prefix_of(line)) && !(a.is_prefix_of(line) && d.is_prefix_of(line)) && !(
        b.is_prefix_of(line) && c.is_prefix_of(line)) && !(b.is_prefix_of(line) && d.is_prefix_of(
            line,
        )) && !(c.is_prefix_of(line) && d.is_prefix_of(line)) by {
        lemma_keys_apart(line);
    }
}

/// Where each key stands in a patched file: a key that the patch wrote has
/// the written line as its last line, and a key that it did not write has
/// the last line that it had.
proof fn lemma_patched_key_lines(conf: NixConfView, lines: Seq<Seq<char>>)
    ensures
        ({
            let m = merged(conf, found(lines));
            let after = patched_lines(conf, lines);
            let ps = field_prefix("substituters"@);
            let pt = field_prefix("trusted-public-keys"@);
            let ph = field_prefix("post-build-hook"@);
            let pf = field_prefix("secret-key-files"@);
            &&& if m.substituters.len() > 0 {
                key_line(after, ps) == Some(ps + join(m.substituters, seq![' ']))
            } else {
                key_line(after, ps) == key_line(lines, ps)
            }
            &&& if m.trusted_public_keys.len() > 0 {
                key_line(after, pt) == Some(pt + join(m.trusted_public_keys, seq![' ']))
            } else {
                key_line(after, pt) == key_line(lines, pt)
            }
            &&& match m.post_build_hook {
                Some(v) => key_line(after, ph) == Some(ph + v),
                None => key_line(after, ph) == key_line(lines, ph),
            }
            &&& if m.secret_key_files.len() > 0 {
                key_line(after, pf) == Some(pf + join(m.secret_key_files, seq![' ']))
            } else {
                key_line(after, pf) == key_line(lines, pf)
            }
        }),
{
    let m = merged(conf, found(lines));
    let ps = field_prefix("substituters"@);
    let pt = field_prefix("trusted-public-keys"@);
    let ph = field_prefix("post-build-hook"@);
    let pf = field_prefix("secret-key-files"@);
    let e1 = list_entry(last_match(lines, ps), "substituters"@, m.substituters);
    let e2 = list_entry(last_match(lines, pt), "trusted-public-keys"@, m.trusted_public_keys);
    let e3 = value_entry(last_match(lines, ph), "post-build-hook"@, m.post_build_hook);
    let e4 = list_entry(last_match(lines, pf), "secret-key-files"@, m.secret_key_files);
    let q1 = put_all(lines, e1);
    let q2 = put_all(q1, e2);
    let q3 = put_all(q2, e3);
    let q4 = put_all(q3, e4);
    assert(rendered(conf, lines) == e1 + e2 + e3 + e4);
    lemma_put_all_concat(lines, e1 + e2 + e3, e4);
    lemma_put_all_concat(lines, e1 + e2, e3);
    lemma_put_all_concat(lines, e1, e2);
    assert(patched_lines(conf, lines) == q4);
    lemma_all_apart();
    if e1.len() == 1 {
        lemma_prefix_of_concat(ps, join(m.substituters, seq![' ']));
    }
    if e2.len() == 1 {
        lemma_prefix_of_concat(pt, join(m.trusted_public_keys, seq![' ']));
    }
    if e3.len() == 1 {
        lemma_prefix_of_concat(ph, m.post_build_hook->Some_0);
    }
    if e4.len() == 1 {
        lemma_prefix_of_concat(pf, join(m.secret_key_files, seq![' ']));
    }
    lemma_stage(lines, e1, ps, pt);
    lemma_stage(lines, e1, ps, ph);
    lemma_stage(lines, e1, ps, pf);
    lemma_stage(q1, e2, pt, ps);
    lemma_stage(q1, e2, pt, ph);
    lemma_stage(q1, e2, pt, pf);
    lemma_stage(q2, e3, ph, ps);
    lemma_stage(q2, e3, ph, pt);
    lemma_stage(q2, e3, ph, pf);
    lemma_stage(q3, e4, pf, ps);
    lemma_stage(q3, e4, pf, pt);
    lemma_stage(q3, e4, pf, ph);
}

/// A file that was patched is left as it is when it is patched again: where
/// no list value of the declaration holds white space, the lines that a patch
/// gives set what the declaration asks for, each key in its line.
pub proof fn lemma_patched_lines_settled(conf: NixConfView, lines: Seq<Seq<char>>)
    requires
        lists_are_unbroken(conf),
        !conflicting(conf.post_build_hook, found(lines).post_build_hook),
    ensures
        !conflicting(
            conf.post_build_hook,
            found(patched_lines(conf, lines)).post_build_hook,
        ),
        patched_lines(conf, patched_lines(conf, lines)) == patched_lines(conf, lines),
{
    let after = patched_lines(conf, lines);
    let m = merged(conf, found(lines));
    lemma_patched_key_lines(conf, lines);
    lemma_list_key("substituters"@, conf.substituters, lines, after);
    lemma_list_key("trusted-public-keys"@, conf.trusted_public_keys, lines, after);
    lemma_value_key("post-build-hook"@, conf.post_build_hook, lines, after);
    lemma_list_key("secret-key-files"@, conf.secret_key_files, lines, after);
    let again = rendered(conf, after);
    assert forall|k: int| 0 <= k < again.len() implies ((#[trigger] again[k]).0 matches Some(i)
        && 0 <= i < after.len() && after[i] == again[k].1) by {
        let ps = field_prefix("substituters"@);
        let pt = field_prefix("trusted-public-keys"@);
        let ph = field_prefix("post-build-hook"@);
        let pf = field_prefix("secret-key-files"@);
        let e1 = list_entry(last_match(after, ps), "substituters"@, m.substituters);
        let e2 = list_entry(last_match(after, pt), "trusted-public-keys"@, m.trusted_public_keys);
        let e3 = value_entry(last_match(after, ph), "post-build-hook"@, m.post_build_hook);
        let e4 = list_entry(last_match(after, pf), "secret-key-files"@, m.secret_key_files);
        assert(again == e1 + e2 + e3 + e4);
        if k < e1.len() {
            assert(again[k] == e1[0]);
        } else if k < e1.len() + e2.len() {
            assert(again[k] == e2[0]);
        } else if k < e1.len() + e2.len() + e3.len() {
            assert(again[k] == e3[0]);
        } else {
            assert(again[k] == e4[0]);
        }
    }
    lemma_put_all_same(after, again);
}

/// Putting lines never makes a file shorter.
pub proof fn lemma_put_all_len(lines: Seq<Seq<char>>, e: Seq<Entry>)
    requires
        forall|k: int|
            0 <= k < e.len() ==> ((#[trigger] e[k]).0 matches Some(j) ==> 0 <= j < lines.len()),
    ensures
        put_all(lines, e).len() >= lines.len(),
    decreases e.len(),
{
    if e.len() > 0 {
        let init = e.drop_last();
        assert(e[e.len() - 1] == e.last());
        assert forall|k: int| 0 <= k < init.len() implies ((#[trigger] init[k]).0 matches Some(j)
            ==> 0 <= j < lines.len()) by {
            assert(init[k] == e[k]);
        }
        lemma_put_all_len(lines, init);
    }
}

/// Every line of a file after lines were put into it is a line that it had,
/// at its place, or one of the lines that were put.
pub proof fn lemma_put_all_lines(lines: Seq<Seq<char>>, e: Seq<Entry>, i: int)
    requires
        forall|k: int|
            0 <= k < e.len() ==> ((#[trigger] e[k]).0 matches Some(j) ==> 0 <= j < lines.len()),
        0 <= i < put_all(lines, e).len(),
    ensures
        put_all(lines, e).len() >= lines.len(),
        (i < lines.len() && put_all(lines, e)[i] == lines[i]) || exists|k: int|
            0 <= k < e.len() && (#[trigger] e[k]).1 == put_all(lines, e)[i],
    decreases e.len(),
{
    lemma_put_all_len(lines, e);
    if e.len() > 0 {
        let init = e.drop_last();
        let last = e[e.len() - 1];
        assert(last == e.last());
        assert forall|k: int| 0 <= k < init.len() implies ((#[trigger] init[k]).0 matches Some(j)
            ==> 0 <= j < lines.len()) by {
            assert(init[k] == e[k]);
        }
        let mid = put_all(lines, init);
        lemma_put_all_len(lines, init);
        let after = put(mid, last);
        if after[i] == last.1 {
            assert(e[e.len() - 1].1 == after[i]);
        } else {
            assert(i < mid.len());
            assert(after[i] == mid[i]);
            lemma_put_all_lines(lines, init, i);
            if !(i < lines.len() && mid[i] == lines[i]) {
                let k = choose|k: int| 0 <= k < init.len() && (#[trigger] init[k]).1 == mid[i];
                assert(e[k].1 == after[i]);
            }
        }
    }
}

/// A text without line feed and carriage return.
pub open spec fn no_line_break(text: Seq<char>) -> bool {
    forall|k: int| 0 <= k < text.len() ==> #[trigger] text[k] != '\n' && text[k] != '\r'
}

/// A declaration that can be written line by line: no list value holds
/// white space, and the hook holds no line break.
pub open spec fn well_formed(conf: NixConfView) -> bool {
    &&& lists_are_unbroken(conf)
    &&& conf.post_build_hook matches Some(hook) ==> no_line_break(hook)
}

/// Texts without white space, written with blanks between them, hold no
/// line break.
proof fn lemma_joined_no_line_break(parts: Seq<Seq<char>>)
    requires
        forall|i: int| 0 <= i < parts.len() ==> unbroken(#[trigger] parts[i]),
    ensures
        no_line_break(join(parts, seq![' '])),
    decreases parts.len(),
{
    if parts.len() == 1 {
        assert(unbroken(parts[0]));
    } else if parts.len() >= 2 {
        let init = parts.drop_last();
        assert forall|i: int| 0 <= i < init.len() implies unbroken(#[trigger] init[i]) by {
            assert(init[i] == parts[i]);
        }
        lemma_joined_no_line_break(init);
        let last = parts[parts.len() - 1];
        assert(last == parts.last());
        assert(unbroken(last));
        let head = join(init, seq![' ']);
        let text = join(parts, seq![' ']);
        assert forall|k: int| 0 <= k < text.len() implies #[trigger] text[k] != '\n' && text[k]
            != '\r' by {
            if k < head.len() {
                assert(text[k] == head[k]);
            } else if k == head.len() {
                assert(text[k] == ' ');
            } else {
                assert(text[k] == last[k - head.len() - 1]);
            }
        }
    }
}

/// A line that sets a key to a value without line break is plain and not
/// empty.
proof fn lemma_key_line_plain(name: Seq<char>, value: Seq<char>)
    requires
        no_line_break(name),
        no_line_break(value),
    ensures
        is_plain_line(field_prefix(name) + value),
        (field_prefix(name) + value).len() > 0,
{
    let p = field_prefix(name);
    let line = p + value;
    assert(p.len() == name.len() + 3);
    assert forall|k: int| 0 <= k < line.len() implies #[trigger] line[k] != '\n' && line[k]
        != '\r' by {
        if k < name.len() {
            assert(line[k] == name[k]);
        } else if k < p.len() {
            assert(line[k] == separator()[k - name.len()]);
        } else {
            assert(line[k] == value[k - p.len()]);
        }
    }
    assert(line[line.len() - 1] == line.last());
}

/// The names of the four keys hold no line break.
proof fn lemma_names_no_line_break()
    ensures
        no_line_break("substituters"@),
        no_line_break("trusted-public-keys"@),
        no_line_break("post-build-hook"@),
        no_line_break("secret-key-files"@),
{
    reveal_strlit("substituters");
    reveal_strlit("trusted-public-keys");
    reveal_strlit("post-build-hook");
    reveal_strlit("secret-key-files");
}

/// The line that a list without white space in its texts is written as is
/// plain and not empty.
proof fn lemma_list_entry_plain(at: Option<int>, name: Seq<char>, d: Seq<Seq<char>>, e: Seq<Seq<char>>)
    requires
        no_line_break(name),
        forall|i: int| 0 <= i < d.len() ==> unbroken(#[trigger] d[i]),
        forall|i: int| 0 <= i < e.len() ==> unbroken(#[trigger] e[i]),
    ensures
        forall|k: int|
            0 <= k < list_entry(at, name, sort_dedup(d + e)).len() ==> is_plain_line(
                (#[trigger] list_entry(at, name, sort_dedup(d + e))[k]).1,
            ) && list_entry(at, name, sort_dedup(d + e))[k].1.len() > 0,
{
    let m = sort_dedup(d + e);
    if m.len() > 0 {
        lemma_union_unbroken(d, e);
        lemma_joined_no_line_break(m);
        lemma_key_line_plain(name, join(m, seq![' ']));
    }
}

/// The words that a file gives a list key hold no white space.
proof fn lemma_list_in_words(lines: Seq<Seq<char>>, name: Seq<char>)
    ensures
        forall|i: int|
            0 <= i < list_in(lines, name).len() ==> unbroken(#[trigger] list_in(lines, name)[i]),
{
    match last_match(lines, field_prefix(name)) {
        Some(j) => {
            lemma_words_are_words(lines[j].skip(field_prefix(name).len() as int));
        },
        None => {},
    }
}

/// The lines that a well-formed declaration asks for in a file of plain
/// lines are plain and not empty.
proof fn lemma_rendered_plain(conf: NixConfView, lines: Seq<Seq<char>>)
    requires
        well_formed(conf),
        forall|i: int| 0 <= i < lines.len() ==> is_plain_line(#[trigger] lines[i]),
    ensures
        forall|k: int|
            0 <= k < rendered(conf, lines).len() ==> is_plain_line(
                (#[trigger] rendered(conf, lines)[k]).1,
            ) && rendered(conf, lines)[k].1.len() > 0,
{
    let m = merged(conf, found(lines));
    let ps = field_prefix("substituters"@);
    let pt = field_prefix("trusted-public-keys"@);
    let ph = field_prefix("post-build-hook"@);
    let pf = field_prefix("secret-key-files"@);
    let e1 = list_entry(last_match(lines, ps), "substituters"@, m.substituters);
    let e2 = list_entry(last_match(lines, pt), "trusted-public-keys"@, m.trusted_public_keys);
    let e3 = value_entry(last_match(lines, ph), "post-build-hook"@, m.post_build_hook);
    let e4 = list_entry(last_match(lines, pf), "secret-key-files"@, m.secret_key_files);
    lemma_names_no_line_break();
    lemma_list_in_words(lines, "substituters"@);
    lemma_list_in_words(lines, "trusted-public-keys"@);
    lemma_list_in_words(lines, "secret-key-files"@);
    lemma_list_entry_plain(
        last_match(lines, ps),
        "substituters"@,
        conf.substituters,
        list_in(lines, "substituters"@),
    );
    lemma_list_entry_plain(
        last_match(lines, pt),
        "trusted-public-keys"@,
        conf.trusted_public_keys,
        list_in(lines, "trusted-public-keys"@),
    );
    lemma_list_entry_plain(
        last_match(lines, pf),
        "secret-key-files"@,
        conf.secret_key_files,
        list_in(lines, "secret-key-files"@),
    );
    if e3.len() == 1 {
        let v = m.post_build_hook->Some_0;
        if conf.post_build_hook is Some {
            lemma_key_line_plain("post-build-hook"@, v);
        } else {
            lemma_last_match_in_range(lines, ph);
            let j = last_match(lines, ph)->Some_0;
            assert(ph + v =~= lines[j]);
            assert(lines[j].len() >= ph.len());
            assert(ph.len() == "post-build-hook"@.len() + 3);
        }
    }
    let all = rendered(conf, lines);
    assert(all == e1 + e2 + e3 + e4);
    assert forall|k: int| 0 <= k < all.len() implies is_plain_line((#[trigger] all[k]).1)
        && all[k].1.len() > 0 by {
        if k < e1.len() {
            assert(all[k] == e1[0]);
        } else if k < e1.len() + e2.len() {
            assert(all[k] == e2[0]);
        } else if k < e1.len() + e2.len() + e3.len() {
            assert(all[k] == e3[0]);
        } else {
            assert(all[k] == e4[0]);
        }
    }
}

/// The lines that patching gives are read back as they are written, where
/// the declaration is well-formed and the lines of the file are plain.
pub proof fn lemma_patched_lines_read_back(conf: NixConfView, text: Seq<char>)
    requires
        well_formed(conf),
        are_plain_lines(lines(text)),
    ensures
        lines(patched_text(conf, text)) == patched_lines(conf, lines(text)),
{
    let old = lines(text);
    let e = rendered(conf, old);
    let new = patched_lines(conf, old);
    lemma_rendered_plain(conf, old);
    lemma_rendered_at_key_lines(conf, old);
    lemma_put_all_len(old, e);
    assert forall|i: int| 0 <= i < new.len() implies is_plain_line(#[trigger] new[i]) && (i
        >= old.len() ==> new[i].len() > 0) by {
        lemma_put_all_lines(old, e, i);
        if !(i < old.len() && new[i] == old[i]) {
            let k = choose|k: int| 0 <= k < e.len() && (#[trigger] e[k]).1 == new[i];
            assert(is_plain_line(e[k].1));
        }
    }
    if new.len() > 0 {
        let n = new.len() - 1;
        lemma_put_all_lines(old, e, n);
        if n < old.len() && new[n] == old[n] {
            assert(old.len() == new.len());
            assert(old.last() == old[n]);
        } else {
            let k = choose|k: int| 0 <= k < e.len() && (#[trigger] e[k]).1 == new[n];
            assert(e[k].1.len() > 0);
        }
        assert(new.last() == new[n]);
    }
    lemma_lines_of_joined(new);
}

/// Applying a declaration to what applying it wrote changes nothing: where
/// no list value of the declaration holds white space and the lines that were
/// written are read back as they were written, a second application finds
/// the file as it wants it.
pub proof fn lemma_applied_twice(conf: NixConfView, old: Seq<u8>)
    requires
        lists_are_unbroken(conf),
        applied(conf, old) is Write,
        lines(patched_text(conf, decode_utf8(old))) == patched_lines(
            conf,
            lines(decode_utf8(old)),
        ),
    ensures
        applied(conf, applied(conf, old)->Write_0) == Applied::Unchanged,
{
    let text = decode_utf8(old);
    let new_text = patched_text(conf, text);
    encode_utf8_valid_utf8(new_text);
    encode_utf8_decode_utf8(new_text);
    lemma_patched_lines_settled(conf, lines(text));
}

/// A declaration that sets no key.
pub open spec fn declares_nothing(conf: NixConfView) -> bool {
    &&& conf.substituters.len() == 0
    &&& conf.trusted_public_keys.len() == 0
    &&& conf.post_build_hook is None
    &&& conf.secret_key_files.len() == 0
}

/// A declaration that sets no key leaves an empty file empty.
pub proof fn lemma_nothing_declared_for_nothing(conf: NixConfView)
    requires
        declares_nothing(conf),
    ensures
        patched_text(conf, Seq::empty()) == Seq::<char>::empty(),
{
    let none = Seq::<Seq<char>>::empty();
    assert(lines(Seq::empty()) =~= none);
    assert(conf.substituters + found(none).substituters =~= none);
    assert(conf.trusted_public_keys + found(none).trusted_public_keys =~= none);
    assert(conf.secret_key_files + found(none).secret_key_files =~= none);
    assert(sort_dedup(none) =~= none);
    assert(rendered(conf, none) =~= Seq::empty());
    assert(patched_lines(conf, none) =~= none);
    assert(join(none, seq!['\n']) =~= Seq::<char>::empty());
}

/// Applying a declaration that sets no key to what applying it wrote
/// changes nothing, where what it wrote is the empty file.
pub proof fn lemma_applied_twice_to_nothing(conf: NixConfView, old: Seq<u8>)
    requires
        declares_nothing(conf),
        applied(conf, old) is Write,
        patched_text(conf, decode_utf8(old)).len() == 0,
    ensures
        applied(conf, applied(conf, old)->Write_0) == Applied::Unchanged,
{
    let new_text = patched_text(conf, decode_utf8(old));
    assert(new_text =~= Seq::<char>::empty());
    encode_utf8_valid_utf8(new_text);
    encode_utf8_decode_utf8(new_text);
    lemma_nothing_declared_for_nothing(conf);
}

/// Applying a well-formed declaration to what applying it wrote changes
/// nothing, where the lines of the file were plain: none ended in a carriage
/// return, and the last one was not empty.
pub proof fn lemma_applied_twice_to_plain_lines(conf: NixConfView, old: Seq<u8>)
    requires
        well_formed(conf),
        applied(conf, old) is Write,
        are_plain_lines(lines(decode_utf8(old))),
    ensures
        applied(conf, applied(conf, old)->Write_0) == Applied::Unchanged,
{
    lemma_patched_lines_read_back(conf, decode_utf8(old));
    lemma_applied_twice(conf, old);
}

} // verus!
