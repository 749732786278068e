//! Text as sequences of characters: lines, words, prefixes and joining.
//!
//! Every function here works on `Vec<char>` and states its result over
//! `Seq<char>`, so that the modules built on it can reason about what a
//! configuration file holds character by character.

use vstd::prelude::*;
use vstd::string::*;
use vstd::utf8::*;

verus! {

/// The texts that a vector of character vectors holds.
pub open spec fn views(texts: Seq<Vec<char>>) -> Seq<Seq<char>> {
    Seq::new(texts.len(), |i: int| texts[i]@)
}

/// The texts that a list of strings holds.
pub open spec fn string_views(strings: Seq<String>) -> Seq<Seq<char>> {
    Seq::new(strings.len(), |i: int| strings[i]@)
}

/// White space: the code points with the Unicode property `White_Space`.
pub open spec fn is_whitespace(c: char) -> bool {
    ||| '\u{9}' <= c <= '\u{d}'
    ||| c == ' '
    ||| c == '\u{85}'
    ||| c == '\u{a0}'
    ||| c == '\u{1680}'
    ||| '\u{2000}' <= c <= '\u{200a}'
    ||| c == '\u{2028}'
    ||| c == '\u{2029}'
    ||| c == '\u{202f}'
    ||| c == '\u{205f}'
    ||| c == '\u{3000}'
}

/// `parts` written one after the other with `sep` between neighbours.
pub open spec fn join(parts: Seq<Seq<char>>, sep: Seq<char>) -> Seq<char>
    decreases parts.len(),
{
    if parts.len() == 0 {
        Seq::empty()
    } else if parts.len() == 1 {
        parts[0]
    } else {
        join(parts.drop_last(), sep) + sep + parts.last()
    }
}

/// How many characters stand before the first line feed of `text`
/// (all of them, if it has none).
pub open spec fn line_len(text: Seq<char>) -> nat
    decreases text.len(),
{
    if text.len() == 0 || text[0] == '\n' {
        0
    } else {
        1 + line_len(text.drop_first())
    }
}

/// `line` without the carriage return that ends it, if one does.
pub open spec fn strip_cr(line: Seq<char>) -> Seq<char> {
    if line.len() > 0 && line.last() == '\r' {
        line.drop_last()
    } else {
        line
    }
}

/// The lines of `text`. A line ends at a line feed, or at a carriage return
/// that a line feed follows; neither belongs to the line. What follows the
/// last line feed is a line only if it is not empty.
pub open spec fn lines(text: Seq<char>) -> Seq<Seq<char>>
    decreases text.len(),
{
    let n = line_len(text);
    if text.len() == 0 {
        Seq::empty()
    } else if n >= text.len() {
        seq![text]
    } else {
        seq![strip_cr(text.take(n as int))] + lines(text.skip(n as int + 1))
    }
}

/// How many characters stand before the first white space of `text`
/// (all of them, if it has none).
pub open spec fn word_len(text: Seq<char>) -> nat
    decreases text.len(),
{
    if text.len() == 0 || is_whitespace(text[0]) {
        0
    } else {
        1 + word_len(text.drop_first())
    }
}

/// The words of `text`: its longest pieces without white space, in order.
/// No word is empty.
pub open spec fn words(text: Seq<char>) -> Seq<Seq<char>>
    decreases text.len(),
{
    let n = word_len(text);
    if text.len() == 0 {
        Seq::empty()
    } else if is_whitespace(text[0]) {
        words(text.drop_first())
    } else if n >= text.len() {
        seq![text]
    } else {
        seq![text.take(n as int)] + words(text.skip(n as int))
    }
}

/// What follows `prefix` in `text`, if `text` starts with it.
pub open spec fn strip_prefix(text: Seq<char>, prefix: Seq<char>) -> Option<Seq<char>> {
    if prefix.is_prefix_of(text) {
        Some(text.skip(prefix.len() as int))
    } else {
        None
    }
}

/// `a` comes before `b` in the dictionary, characters compared by code point.
pub open spec fn lex_lt(a: Seq<char>, b: Seq<char>) -> bool
    decreases a.len(),
{
    if b.len() == 0 {
        false
    } else if a.len() == 0 {
        true
    } else if a[0] == b[0] {
        lex_lt(a.drop_first(), b.drop_first())
    } else {
        a[0] < b[0]
    }
}

/// Each text of `s` comes before all that follow it; so none occurs twice.
pub open spec fn strictly_sorted(s: Seq<Seq<char>>) -> bool {
    forall|i: int, j: int| 0 <= i < j < s.len() ==> lex_lt(#[trigger] s[i], #[trigger] s[j])
}

/// `s`, which is sorted, with `x` put at its place unless it is there already.
pub open spec fn insert_sorted(s: Seq<Seq<char>>, x: Seq<char>) -> Seq<Seq<char>>
    decreases s.len(),
{
    if s.len() == 0 {
        seq![x]
    } else if s.last() == x {
        s
    } else if lex_lt(s.last(), x) {
        s.push(x)
    } else {
        insert_sorted(s.drop_last(), x).push(s.last())
    }
}

/// The texts of `s` in dictionary order, each once.
pub open spec fn sort_dedup(s: Seq<Seq<char>>) -> Seq<Seq<char>>
    decreases s.len(),
{
    if s.len() == 0 {
        Seq::empty()
    } else {
        insert_sorted(sort_dedup(s.drop_last()), s.last())
    }
}

/// `views` follows `push`.
pub proof fn lemma_views_push(texts: Seq<Vec<char>>, text: Vec<char>)
    ensures
        views(texts.push(text)) == views(texts).push(text@),
{
    assert(views(texts.push(text)) =~= views(texts).push(text@));
}

/// Where the first line feed stands, `line_len` says so.
pub proof fn lemma_line_len(text: Seq<char>, n: int)
    requires
        0 <= n <= text.len(),
        forall|k: int| 0 <= k < n ==> text[k] != '\n',
        n == text.len() || text[n] == '\n',
    ensures
        line_len(text) == n,
    decreases n,
{
    if n > 0 {
        let rest = text.drop_first();
        assert forall|k: int| 0 <= k < n - 1 implies rest[k] != '\n' by {
            assert(rest[k] == text[k + 1]);
        }
        lemma_line_len(rest, n - 1);
    }
}

/// Where the first white space stands, `word_len` says so.
pub proof fn lemma_word_len(text: Seq<char>, n: int)
    requires
        0 <= n <= text.len(),
        forall|k: int| 0 <= k < n ==> !is_whitespace(text[k]),
        n == text.len() || is_whitespace(text[n]),
    ensures
        word_len(text) == n,
    decreases n,
{
    if n > 0 {
        let rest = text.drop_first();
        assert forall|k: int| 0 <= k < n - 1 implies !is_whitespace(rest[k]) by {
            assert(rest[k] == text[k + 1]);
        }
        lemma_word_len(rest, n - 1);
    }
}

/// White space at the front holds no word.
pub proof fn lemma_words_skip_whitespace(text: Seq<char>, n: int)
    requires
        0 <= n <= text.len(),
        forall|k: int| 0 <= k < n ==> is_whitespace(text[k]),
    ensures
        words(text) == words(text.skip(n)),
    decreases n,
{
    if n == 0 {
        assert(text.skip(0) =~= text);
    } else {
        let rest = text.drop_first();
        assert forall|k: int| 0 <= k < n - 1 implies is_whitespace(rest[k]) by {
            assert(rest[k] == text[k + 1]);
        }
        lemma_words_skip_whitespace(rest, n - 1);
        assert(rest.skip(n - 1) =~= text.skip(n));
    }
}

/// Whether `c` is white space.
pub fn char_is_whitespace(c: char) -> (r: bool)
    ensures
        r == is_whitespace(c),
{
    ('\u{9}' <= c && c <= '\u{d}') || c == ' ' || c == '\u{85}' || c == '\u{a0}' || c
        == '\u{1680}' || ('\u{2000}' <= c && c <= '\u{200a}') || c == '\u{2028}' || c
        == '\u{2029}' || c == '\u{202f}' || c == '\u{205f}' || c == '\u{3000}'
}

/// The characters of `s`, in order.
pub fn to_chars(s: &str) -> (chars: Vec<char>)
    ensures
        chars@ == s@,
{
    let mut chars: Vec<char> = Vec::new();
    for c in it: s.chars()
        invariant
            it.seq() == s@,
            chars@ == s@.take(it.index() as int),
    {
        chars.push(c);
    }
    chars
}

/// `String::push`: the string afterwards is the string before with `c` at its end.
#[verifier::external_body]
fn push_char(s: &mut String, c: char)
    ensures
        final(s)@ == old(s)@.push(c),
{
    s.push(c)
}

/// The string that holds `chars`.
pub fn from_chars(chars: &Vec<char>) -> (s: String)
    ensures
        s@ == chars@,
{
    let mut s = String::new();
    let mut i: usize = 0;
    while i < chars.len()
        invariant
            i <= chars.len(),
            s@ == chars@.take(i as int),
        decreases chars.len() - i,
    {
        push_char(&mut s, chars[i]);
        i += 1;
    }
    s
}

/// `chars` in UTF-8.
pub fn to_bytes(chars: &Vec<char>) -> (bytes: Vec<u8>)
    ensures
        bytes@ == encode_utf8(chars@),
{
    let s = from_chars(chars);
    s.as_str().as_bytes_vec()
}

/// Whether `a` and `b` hold the same characters.
pub fn same_text(a: &Vec<char>, b: &Vec<char>) -> (r: bool)
    ensures
        r == (a@ == b@),
{
    if a.len() != b.len() {
        return false;
    }
    let mut i: usize = 0;
    while i < a.len()
        invariant
            i <= a.len(),
            a.len() == b.len(),
            a@.take(i as int) == b@.take(i as int),
        decreases a.len() - i,
    {
        if a[i] != b[i] {
            return false;
        }
        assert(a@.take(i + 1) =~= a@.take(i as int).push(a@[i as int]));
        assert(b@.take(i + 1) =~= b@.take(i as int).push(b@[i as int]));
        i += 1;
    }
    assert(a@ =~= a@.take(a.len() as int));
    assert(b@ =~= b@.take(b.len() as int));
    true
}

/// The characters of `text` from `from` up to, not including, `to`.
pub fn copy_range(text: &Vec<char>, from: usize, to: usize) -> (piece: Vec<char>)
    requires
        from <= to <= text.len(),
    ensures
        piece@ == text@.subrange(from as int, to as int),
{
    let mut piece: Vec<char> = Vec::new();
    let mut i: usize = from;
    while i < to
        invariant
            from <= i <= to <= text.len(),
            piece@ == text@.subrange(from as int, i as int),
        decreases to - i,
    {
        piece.push(text[i]);
        assert(text@.subrange(from as int, i + 1) =~= text@.subrange(from as int, i as int).push(
            text@[i as int],
        ));
        i += 1;
    }
    piece
}

/// A copy of `text`.
pub fn clone_text(text: &Vec<char>) -> (copy: Vec<char>)
    ensures
        copy@ == text@,
{
    let copy = copy_range(text, 0, text.len());
    assert(copy@ =~= text@);
    copy
}

/// Splits `text` into its lines.
pub fn split_lines(text: &Vec<char>) -> (result: Vec<Vec<char>>)
    ensures
        views(result@) == lines(text@),
{
    let mut result: Vec<Vec<char>> = Vec::new();
    let mut start: usize = 0;
    let mut i: usize = 0;
    assert(text@.skip(0) =~= text@);
    assert(views(result@) =~= Seq::<Seq<char>>::empty());
    while i < text.len()
        invariant
            start <= i <= text.len(),
            forall|k: int| start <= k < i ==> text@[k] != '\n',
            views(result@) + lines(text@.skip(start as int)) == lines(text@),
        decreases text.len() - i,
    {
        if text[i] == '\n' {
            let mut end: usize = i;
            if end > start && text[end - 1] == '\r' {
                end -= 1;
            }
            let line = copy_range(text, start, end);
            proof {
                let rest = text@.skip(start as int);
                lemma_line_len(rest, i - start);
                let whole = rest.take(i - start);
                assert(whole =~= text@.subrange(start as int, i as int));
                assert(line@ =~= strip_cr(whole));
                assert(rest.skip(i - start + 1) =~= text@.skip(i + 1));
                lemma_views_push(result@, line);
                assert(views(result@).push(line@) + lines(text@.skip(i + 1)) =~= views(result@)
                    + (seq![line@] + lines(text@.skip(i + 1))));
            }
            result.push(line);
            start = i + 1;
        }
        i += 1;
    }
    if start < text.len() {
        let line = copy_range(text, start, text.len());
        proof {
            let rest = text@.skip(start as int);
            lemma_line_len(rest, rest.len() as int);
            assert(line@ =~= rest);
            lemma_views_push(result@, line);
            assert(views(result@).push(line@) =~= views(result@) + seq![rest]);
        }
        result.push(line);
    } else {
        assert(views(result@) + Seq::<Seq<char>>::empty() =~= views(result@));
    }
    result
}

/// Splits `text` into its words.
pub fn split_whitespace(text: &Vec<char>) -> (result: Vec<Vec<char>>)
    ensures
        views(result@) == words(text@),
{
    let mut result: Vec<Vec<char>> = Vec::new();
    let mut i: usize = 0;
    assert(text@.skip(0) =~= text@);
    assert(views(result@) =~= Seq::<Seq<char>>::empty());
    while i < text.len()
        invariant
            i <= text.len(),
            views(result@) + words(text@.skip(i as int)) == words(text@),
        decreases text.len() - i,
    {
        if char_is_whitespace(text[i]) {
            proof {
                let rest = text@.skip(i as int);
                assert(rest.drop_first() =~= text@.skip(i + 1));
            }
            i += 1;
        } else {
            let start: usize = i;
            while i < text.len() && !char_is_whitespace(text[i])
                invariant
                    start <= i <= text.len(),
                    forall|k: int| start <= k < i ==> !is_whitespace(text@[k]),
                decreases text.len() - i,
            {
                i += 1;
            }
            let word = copy_range(text, start, i);
            proof {
                let rest = text@.skip(start as int);
                lemma_word_len(rest, i - start);
                assert(word@ =~= rest.take(i - start));
                assert(rest.skip(i - start) =~= text@.skip(i as int));
                if i == text.len() {
                    assert(rest.take(i - start) =~= rest);
                    assert(words(text@.skip(i as int)) =~= Seq::<Seq<char>>::empty());
                }
                lemma_views_push(result@, word);
                assert(views(result@).push(word@) + words(text@.skip(i as int)) =~= views(result@)
                    + (seq![word@] + words(text@.skip(i as int))));
            }
            result.push(word);
        }
    }
    assert(views(result@) + Seq::<Seq<char>>::empty() =~= views(result@));
    result
}

/// Writes `parts` one after the other with `sep` between neighbours.
pub fn join_with(parts: &Vec<Vec<char>>, sep: &Vec<char>) -> (text: Vec<char>)
    ensures
        text@ == join(views(parts@), sep@),
{
    let mut text: Vec<char> = Vec::new();
    let mut i: usize = 0;
    assert(views(parts@).take(0) =~= Seq::<Seq<char>>::empty());
    while i < parts.len()
        invariant
            i <= parts.len(),
            text@ == join(views(parts@).take(i as int), sep@),
        decreases parts.len() - i,
    {
        let ghost before = text@;
        if i > 0 {
            append_text(&mut text, sep);
        }
        append_text(&mut text, &parts[i]);
        proof {
            let upto = views(parts@).take(i + 1);
            assert(upto.drop_last() =~= views(parts@).take(i as int));
            assert(upto.last() == parts@[i as int]@);
            if i == 0 {
                assert(text@ =~= parts@[0]@);
            }
        }
        i += 1;
    }
    assert(views(parts@).take(parts.len() as int) =~= views(parts@));
    text
}

/// Puts the characters of `tail` at the end of `text`.
pub fn append_text(text: &mut Vec<char>, tail: &Vec<char>)
    ensures
        final(text)@ == old(text)@ + tail@,
{
    let mut i: usize = 0;
    assert(tail@.take(0) =~= Seq::<char>::empty());
    assert(text@ =~= old(text)@ + tail@.take(0));
    while i < tail.len()
        invariant
            i <= tail.len(),
            text@ == old(text)@ + tail@.take(i as int),
        decreases tail.len() - i,
    {
        text.push(tail[i]);
        assert(old(text)@ + tail@.take(i + 1) =~= (old(text)@ + tail@.take(i as int)).push(
            tail@[i as int],
        ));
        i += 1;
    }
    assert(tail@.take(tail.len() as int) =~= tail@);
}

/// What follows `prefix` in `text`, if `text` starts with it.
pub fn remove_prefix(text: &Vec<char>, prefix: &Vec<char>) -> (rest: Option<Vec<char>>)
    ensures
        match rest {
            Some(r) => strip_prefix(text@, prefix@) == Some(r@),
            None => strip_prefix(text@, prefix@) is None,
        },
{
    if text.len() < prefix.len() {
        return None;
    }
    let mut i: usize = 0;
    while i < prefix.len()
        invariant
            i <= prefix.len() <= text.len(),
            forall|k: int| 0 <= k < i ==> text@[k] == prefix@[k],
        decreases prefix.len() - i,
    {
        if text[i] != prefix[i] {
            assert(!prefix@.is_prefix_of(text@)) by {
                if prefix@.is_prefix_of(text@) {
                    assert(text@.subrange(0, prefix@.len() as int)[i as int] == prefix@[i as int]);
                }
            }
            return None;
        }
        i += 1;
    }
    assert(prefix@ =~= text@.subrange(0, prefix@.len() as int));
    let rest = copy_range(text, prefix.len(), text.len());
    assert(rest@ =~= text@.skip(prefix@.len() as int));
    Some(rest)
}

/// No text comes before itself.
pub proof fn lemma_lex_lt_irreflexive(a: Seq<char>)
    ensures
        !lex_lt(a, a),
    decreases a.len(),
{
    if a.len() > 0 {
        lemma_lex_lt_irreflexive(a.drop_first());
    }
}

/// Of two different texts one comes before the other.
pub proof fn lemma_lex_lt_total(a: Seq<char>, b: Seq<char>)
    ensures
        a == b || lex_lt(a, b) || lex_lt(b, a),
    decreases a.len(),
{
    if a.len() == 0 || b.len() == 0 {
        if a.len() == 0 && b.len() == 0 {
            assert(a =~= b);
        }
    } else if a[0] == b[0] {
        lemma_lex_lt_total(a.drop_first(), b.drop_first());
        if a.drop_first() == b.drop_first() {
            assert(a =~= seq![a[0]] + a.drop_first());
            assert(b =~= seq![b[0]] + b.drop_first());
        }
    }
}

/// What comes before a text comes before all that follow that text.
pub proof fn lemma_lex_lt_transitive(a: Seq<char>, b: Seq<char>, c: Seq<char>)
    requires
        lex_lt(a, b),
        lex_lt(b, c),
    ensures
        lex_lt(a, c),
    decreases a.len(),
{
    if a.len() > 0 && a[0] == b[0] && b[0] == c[0] {
        lemma_lex_lt_transitive(a.drop_first(), b.drop_first(), c.drop_first());
    }
}

/// Two texts that agree up to `n` compare as what follows in them.
pub proof fn lemma_lex_lt_common_prefix(a: Seq<char>, b: Seq<char>, n: int)
    requires
        0 <= n <= a.len(),
        n <= b.len(),
        forall|k: int| 0 <= k < n ==> a[k] == b[k],
    ensures
        lex_lt(a, b) == lex_lt(a.skip(n), b.skip(n)),
    decreases n,
{
    if n == 0 {
        assert(a.skip(0) =~= a);
        assert(b.skip(0) =~= b);
    } else {
        let ra = a.drop_first();
        let rb = b.drop_first();
        assert forall|k: int| 0 <= k < n - 1 implies ra[k] == rb[k] by {
            assert(ra[k] == a[k + 1]);
            assert(rb[k] == b[k + 1]);
        }
        lemma_lex_lt_common_prefix(ra, rb, n - 1);
        assert(ra.skip(n - 1) =~= a.skip(n));
        assert(rb.skip(n - 1) =~= b.skip(n));
    }
}

/// Whether `a` comes before `b` in the dictionary.
pub fn text_before(a: &Vec<char>, b: &Vec<char>) -> (r: bool)
    ensures
        r == lex_lt(a@, b@),
{
    let mut i: usize = 0;
    while i < a.len() && i < b.len()
        invariant
            i <= a.len(),
            i <= b.len(),
            forall|k: int| 0 <= k < i ==> a@[k] == b@[k],
        decreases a.len() - i,
    {
        if a[i] != b[i] {
            proof {
                lemma_lex_lt_common_prefix(a@, b@, i as int);
            }
            return a[i] < b[i];
        }
        i += 1;
    }
    proof {
        lemma_lex_lt_common_prefix(a@, b@, i as int);
    }
    i < b.len()
}

/// Putting a text into a sorted list keeps it sorted and adds that text alone.
pub proof fn lemma_insert_sorted(s: Seq<Seq<char>>, x: Seq<char>)
    requires
        strictly_sorted(s),
    ensures
        strictly_sorted(insert_sorted(s, x)),
        forall|y: Seq<char>|
            #![trigger insert_sorted(s, x).contains(y)]
            #![trigger s.contains(y)]
            insert_sorted(s, x).contains(y) <==> (s.contains(y) || y == x),
    decreases s.len(),
{
    let r = insert_sorted(s, x);
    if s.len() == 0 {
        assert(r[0] == x);
    } else if s.last() == x {
        assert(s[s.len() - 1] == x);
    } else if lex_lt(s.last(), x) {
        assert forall|i: int, j: int| 0 <= i < j < r.len() implies lex_lt(r[i], r[j]) by {
            if j == s.len() && i < s.len() - 1 {
                lemma_lex_lt_transitive(s[i], s.last(), x);
            }
        }
        assert forall|y: Seq<char>| r.contains(y) <==> (s.contains(y) || y == x) by {
            if r.contains(y) {
                let k = choose|k: int| 0 <= k < r.len() && r[k] == y;
                if k < s.len() {
                    assert(s[k] == y);
                }
            }
            if s.contains(y) {
                let k = choose|k: int| 0 <= k < s.len() && s[k] == y;
                assert(r[k] == y);
            }
            if y == x {
                assert(r[s.len() as int] == y);
            }
        }
    } else {
        let init = s.drop_last();
        let mid = insert_sorted(init, x);
        assert forall|i: int, j: int| 0 <= i < j < init.len() implies lex_lt(init[i], init[j]) by {
            assert(init[i] == s[i] && init[j] == s[j]);
        }
        lemma_insert_sorted(init, x);
        lemma_lex_lt_total(s.last(), x);
        assert forall|i: int, j: int| 0 <= i < j < r.len() implies lex_lt(r[i], r[j]) by {
            if j == mid.len() {
                assert(mid.contains(mid[i]));
                if mid[i] != x {
                    let k = choose|k: int| 0 <= k < init.len() && init[k] == mid[i];
                    assert(lex_lt(s[k], s[s.len() - 1]));
                }
            }
        }
        assert forall|y: Seq<char>| r.contains(y) <==> (s.contains(y) || y == x) by {
            if r.contains(y) {
                let k = choose|k: int| 0 <= k < r.len() && r[k] == y;
                if k < mid.len() {
                    assert(mid.contains(mid[k]));
                    if y != x {
                        let m = choose|m: int| 0 <= m < init.len() && init[m] == y;
                        assert(s[m] == y);
                    }
                } else {
                    assert(s[s.len() - 1] == y);
                }
            }
            if s.contains(y) {
                let k = choose|k: int| 0 <= k < s.len() && s[k] == y;
                if k < init.len() {
                    assert(init[k] == y);
                    assert(init.contains(y));
                    let m = choose|m: int| 0 <= m < mid.len() && mid[m] == y;
                    assert(r[m] == y);
                } else {
                    assert(r[mid.len() as int] == y);
                }
            }
            if y == x {
                assert(mid.contains(x));
                let m = choose|m: int| 0 <= m < mid.len() && mid[m] == x;
                assert(r[m] == x);
            }
        }
    }
}

/// `sort_dedup(s)` is sorted and holds the texts of `s`, no others.
pub proof fn lemma_sort_dedup(s: Seq<Seq<char>>)
    ensures
        strictly_sorted(sort_dedup(s)),
        forall|y: Seq<char>|
            #![trigger sort_dedup(s).contains(y)]
            #![trigger s.contains(y)]
            sort_dedup(s).contains(y) <==> s.contains(y),
    decreases s.len(),
{
    if s.len() > 0 {
        let init = s.drop_last();
        lemma_sort_dedup(init);
        lemma_insert_sorted(sort_dedup(init), s.last());
        assert forall|y: Seq<char>| sort_dedup(s).contains(y) <==> s.contains(y) by {
            if s.contains(y) {
                let k = choose|k: int| 0 <= k < s.len() && s[k] == y;
                if k < init.len() {
                    assert(init[k] == y);
                }
            }
            if init.contains(y) {
                let k = choose|k: int| 0 <= k < init.len() && init[k] == y;
                assert(s[k] == y);
            }
            if y == s.last() {
                assert(s[s.len() - 1] == y);
            }
        }
    }
}

/// Two sorted lists that hold the same texts are the same list.
pub proof fn lemma_sorted_unique(a: Seq<Seq<char>>, b: Seq<Seq<char>>)
    requires
        strictly_sorted(a),
        strictly_sorted(b),
        forall|y: Seq<char>|
            #![trigger a.contains(y)]
            #![trigger b.contains(y)]
            a.contains(y) <==> b.contains(y),
    ensures
        a == b,
    decreases a.len(),
{
    if a.len() == 0 {
        if b.len() > 0 {
            assert(b.contains(b[0]));
        }
        assert(a =~= b);
    } else {
        assert(a.contains(a[a.len() - 1]));
        let la = a.last();
        let kb = choose|k: int| 0 <= k < b.len() && b[k] == la;
        let lb = b.last();
        assert(b.contains(b[b.len() - 1]));
        let ka = choose|k: int| 0 <= k < a.len() && a[k] == lb;
        // the two greatest texts are the same text
        if la != lb {
            lemma_lex_lt_irreflexive(la);
            lemma_lex_lt_irreflexive(lb);
            assert(kb < b.len() - 1);
            assert(lex_lt(b[kb], b[b.len() - 1]));
            assert(ka < a.len() - 1);
            assert(lex_lt(a[ka], a[a.len() - 1]));
            lemma_lex_lt_transitive(la, lb, la);
        }
        let ia = a.drop_last();
        let ib = b.drop_last();
        assert forall|i: int, j: int| 0 <= i < j < ia.len() implies lex_lt(ia[i], ia[j]) by {
            assert(ia[i] == a[i] && ia[j] == a[j]);
        }
        assert forall|i: int, j: int| 0 <= i < j < ib.len() implies lex_lt(ib[i], ib[j]) by {
            assert(ib[i] == b[i] && ib[j] == b[j]);
        }
        assert forall|y: Seq<char>| ia.contains(y) <==> ib.contains(y) by {
            lemma_lex_lt_irreflexive(la);
            if ia.contains(y) {
                let k = choose|k: int| 0 <= k < ia.len() && ia[k] == y;
                assert(a[k] == y);
                assert(lex_lt(a[k], a[a.len() - 1]));
                assert(a.contains(y));
                let m = choose|m: int| 0 <= m < b.len() && b[m] == y;
                assert(m < b.len() - 1);
                assert(ib[m] == y);
            }
            if ib.contains(y) {
                let k = choose|k: int| 0 <= k < ib.len() && ib[k] == y;
                assert(b[k] == y);
                assert(lex_lt(b[k], b[b.len() - 1]));
                assert(b.contains(y));
                let m = choose|m: int| 0 <= m < a.len() && a[m] == y;
                assert(m < a.len() - 1);
                assert(ia[m] == y);
            }
        }
        lemma_sorted_unique(ia, ib);
        assert(a =~= ia.push(la));
        assert(b =~= ib.push(lb));
    }
}

/// In a sorted list, a text goes where the texts before it end.
pub proof fn lemma_insert_sorted_at(s: Seq<Seq<char>>, x: Seq<char>, p: int)
    requires
        strictly_sorted(s),
        0 <= p <= s.len(),
        forall|i: int| 0 <= i < p ==> lex_lt(s[i], x),
        p == s.len() || !lex_lt(s[p], x),
    ensures
        insert_sorted(s, x) == if p < s.len() && s[p] == x {
            s
        } else {
            s.insert(p, x)
        },
{
    lemma_insert_sorted(s, x);
    let r = if p < s.len() && s[p] == x {
        s
    } else {
        s.insert(p, x)
    };
    if p < s.len() && s[p] == x {
    } else {
        if p < s.len() {
            lemma_lex_lt_total(s[p], x);
        }
        assert forall|i: int, j: int| 0 <= i < j < r.len() implies lex_lt(r[i], r[j]) by {
            if i < p && j == p {
            } else if i == p {
                assert(r[j] == s[j - 1]);
                if j - 1 > p {
                    lemma_lex_lt_transitive(x, s[p], s[j - 1]);
                }
            } else if j < p {
                assert(r[j] == s[j] && r[i] == s[i]);
            } else if i < p {
                assert(r[j] == s[j - 1] && r[i] == s[i]);
                if j - 1 > p {
                    lemma_lex_lt_transitive(s[i], x, s[p]);
                    lemma_lex_lt_transitive(s[i], s[p], s[j - 1]);
                } else {
                    lemma_lex_lt_transitive(s[i], x, s[p]);
                }
            } else {
                assert(r[j] == s[j - 1] && r[i] == s[i - 1]);
            }
        }
    }
    assert forall|y: Seq<char>| r.contains(y) <==> (s.contains(y) || y == x) by {
        if r.contains(y) {
            let k = choose|k: int| 0 <= k < r.len() && r[k] == y;
            if p < s.len() && s[p] == x {
            } else if k < p {
                assert(s[k] == y);
            } else if k > p {
                assert(s[k - 1] == y);
            }
        }
        if s.contains(y) {
            let k = choose|k: int| 0 <= k < s.len() && s[k] == y;
            if p < s.len() && s[p] == x {
            } else if k < p {
                assert(r[k] == y);
            } else {
                assert(r[k + 1] == y);
            }
        }
        if y == x {
            assert(r[p] == x);
        }
    }
    lemma_sorted_unique(insert_sorted(s, x), r);
}

/// Puts `x` at its place in the sorted `list`, unless it is there already.
pub fn insert_text(list: &mut Vec<Vec<char>>, x: Vec<char>)
    requires
        strictly_sorted(views(old(list)@)),
    ensures
        views(final(list)@) == insert_sorted(views(old(list)@), x@),
{
    let mut p: usize = 0;
    while p < list.len() && text_before(&list[p], &x)
        invariant
            p <= list.len(),
            *list == *old(list),
            forall|i: int| 0 <= i < p ==> lex_lt(#[trigger] views(list@)[i], x@),
        decreases list.len() - p,
    {
        p += 1;
    }
    proof {
        lemma_insert_sorted_at(views(list@), x@, p as int);
    }
    if p < list.len() && same_text(&list[p], &x) {
        return ;
    }
    list.insert(p, x);
    assert(views(list@) =~= views(old(list)@).insert(p as int, x@));
}

/// The texts of `items` in dictionary order, each once.
pub fn sort_texts(items: Vec<Vec<char>>) -> (sorted: Vec<Vec<char>>)
    ensures
        views(sorted@) == sort_dedup(views(items@)),
{
    let mut sorted: Vec<Vec<char>> = Vec::new();
    let ghost all = views(items@);
    assert(views(sorted@) =~= sort_dedup(all.take(0)));
    for item in it: items
        invariant
            it.seq() == items@,
            all == views(items@),
            views(sorted@) == sort_dedup(all.take(it.index() as int)),
    {
        proof {
            let i = it.index() as int;
            lemma_sort_dedup(all.take(i));
            assert(all.take(i + 1).drop_last() =~= all.take(i));
        }
        insert_text(&mut sorted, item);
    }
    assert(all.take(all.len() as int) =~= all);
    sorted
}

/// A text is a word: it is not empty and holds no white space.
pub open spec fn is_word(text: Seq<char>) -> bool {
    text.len() > 0 && forall|k: int| 0 <= k < text.len() ==> !is_whitespace(#[trigger] text[k])
}

/// A joined list begins with its first part.
pub proof fn lemma_join_first(parts: Seq<Seq<char>>, sep: Seq<char>)
    requires
        parts.len() >= 2,
    ensures
        join(parts, sep) == parts[0] + sep + join(parts.drop_first(), sep),
    decreases parts.len(),
{
    if parts.len() == 2 {
        assert(parts.drop_last() =~= seq![parts[0]]);
        assert(parts.drop_first() =~= seq![parts[1]]);
        assert(join(parts.drop_last(), sep) == parts[0]);
        assert(join(parts.drop_first(), sep) == parts[1]);
    } else {
        let init = parts.drop_last();
        lemma_join_first(init, sep);
        assert(init.drop_first() =~= parts.drop_first().drop_last());
        assert(init[0] == parts[0]);
        assert(parts.drop_first().last() == parts.last());
        assert(join(parts, sep) =~= parts[0] + sep + join(parts.drop_first(), sep));
    }
}

/// The words of a text are words.
pub proof fn lemma_words_are_words(text: Seq<char>)
    ensures
        forall|i: int| 0 <= i < words(text).len() ==> is_word(#[trigger] words(text)[i]),
    decreases text.len(),
{
    if text.len() == 0 {
    } else if is_whitespace(text[0]) {
        lemma_words_are_words(text.drop_first());
        let rest = words(text.drop_first());
        assert(words(text) == rest);
        assert forall|i: int| 0 <= i < words(text).len() implies is_word(
            #[trigger] words(text)[i],
        ) by {
            assert(is_word(rest[i]));
        }
    } else {
        let n = word_len(text);
        lemma_word_len_bounds(text);
        let first = text.take(n as int);
        assert(is_word(first)) by {
            assert forall|k: int| 0 <= k < first.len() implies !is_whitespace(
                #[trigger] first[k],
            ) by {
                assert(first[k] == text[k]);
            }
        }
        if n < text.len() {
            let rest = words(text.skip(n as int));
            lemma_words_are_words(text.skip(n as int));
            assert(words(text) =~= seq![first] + rest);
            assert forall|i: int| 0 <= i < words(text).len() implies is_word(
                #[trigger] words(text)[i],
            ) by {
                if i > 0 {
                    assert(words(text)[i] == rest[i - 1]);
                } else {
                    assert(words(text)[i] == first);
                }
            }
        } else {
            assert(first =~= text);
            assert(words(text) =~= seq![text]);
            assert forall|i: int| 0 <= i < words(text).len() implies is_word(
                #[trigger] words(text)[i],
            ) by {
                assert(words(text)[i] == text);
            }
        }
    }
}

/// `word_len` stays inside the text, and no white space stands before it.
pub proof fn lemma_word_len_bounds(text: Seq<char>)
    ensures
        word_len(text) <= text.len(),
        forall|k: int| 0 <= k < word_len(text) ==> !is_whitespace(#[trigger] text[k]),
        word_len(text) < text.len() ==> is_whitespace(text[word_len(text) as int]),
    decreases text.len(),
{
    if text.len() > 0 && !is_whitespace(text[0]) {
        let rest = text.drop_first();
        lemma_word_len_bounds(rest);
        assert forall|k: int| 0 <= k < word_len(text) implies !is_whitespace(
            #[trigger] text[k],
        ) by {
            if k > 0 {
                assert(text[k] == rest[k - 1]);
            }
        }
        if word_len(text) < text.len() {
            assert(text[word_len(text) as int] == rest[word_len(rest) as int]);
        }
    }
}

/// A text that holds no white space; it may be empty.
pub open spec fn unbroken(text: Seq<char>) -> bool {
    forall|k: int| 0 <= k < text.len() ==> !is_whitespace(#[trigger] text[k])
}

/// `parts` without the empty ones.
pub open spec fn without_empty(parts: Seq<Seq<char>>) -> Seq<Seq<char>>
    decreases parts.len(),
{
    if parts.len() == 0 {
        Seq::empty()
    } else if parts[0].len() == 0 {
        without_empty(parts.drop_first())
    } else {
        seq![parts[0]] + without_empty(parts.drop_first())
    }
}

/// What is left of a list without its empty texts: the texts of the list
/// that are not empty.
pub proof fn lemma_without_empty(parts: Seq<Seq<char>>, y: Seq<char>)
    ensures
        without_empty(parts).contains(y) <==> (parts.contains(y) && y.len() > 0),
    decreases parts.len(),
{
    if parts.len() > 0 {
        let rest = parts.drop_first();
        let kept = without_empty(rest);
        lemma_without_empty(rest, y);
        if parts.contains(y) {
            let k = choose|k: int| 0 <= k < parts.len() && parts[k] == y;
            if k > 0 {
                assert(rest[k - 1] == y);
            }
        }
        if rest.contains(y) {
            let k = choose|k: int| 0 <= k < rest.len() && rest[k] == y;
            assert(parts[k + 1] == y);
        }
        if parts[0].len() > 0 {
            let all = seq![parts[0]] + kept;
            if all.contains(y) {
                let k = choose|k: int| 0 <= k < all.len() && all[k] == y;
                if k > 0 {
                    assert(kept[k - 1] == y);
                } else {
                    assert(parts[0] == y);
                }
            }
            if kept.contains(y) {
                let k = choose|k: int| 0 <= k < kept.len() && kept[k] == y;
                assert(all[k + 1] == y);
            }
            if parts[0] == y {
                assert(all[0] == y);
            }
        }
    }
}

/// Texts without white space written with blanks between them are read back
/// as they were, but for the empty ones.
pub proof fn lemma_words_of_joined(parts: Seq<Seq<char>>)
    requires
        forall|i: int| 0 <= i < parts.len() ==> unbroken(#[trigger] parts[i]),
    ensures
        words(join(parts, seq![' '])) == without_empty(parts),
    decreases parts.len(),
{
    let sep = seq![' '];
    let text = join(parts, sep);
    if parts.len() == 0 {
    } else if parts.len() == 1 {
        assert(unbroken(parts[0]));
        assert(without_empty(parts.drop_first()) =~= Seq::<Seq<char>>::empty());
        if text.len() > 0 {
            lemma_word_len(text, text.len() as int);
            assert(words(text) =~= without_empty(parts));
        }
    } else {
        let first = parts[0];
        let rest = parts.drop_first();
        assert(unbroken(first));
        lemma_join_first(parts, sep);
        let tail = join(rest, sep);
        assert(text == first + sep + tail);
        let n = first.len() as int;
        assert forall|i: int| 0 <= i < rest.len() implies unbroken(#[trigger] rest[i]) by {
            assert(rest[i] == parts[i + 1]);
        }
        lemma_words_of_joined(rest);
        assert(text[n] == ' ');
        let after = text.skip(n);
        assert(after[0] == ' ');
        lemma_words_skip_whitespace(after, 1);
        assert(after.skip(1) =~= tail);
        if n == 0 {
            assert(after =~= text);
        } else {
            assert forall|k: int| 0 <= k < n implies !is_whitespace(text[k]) by {
                assert(text[k] == first[k]);
            }
            lemma_word_len(text, n);
            assert(text.take(n) =~= first);
        }
    }
}

/// A line that can be written and read back: it holds no line feed and does
/// not end in a carriage return.
pub open spec fn is_plain_line(line: Seq<char>) -> bool {
    &&& forall|k: int| 0 <= k < line.len() ==> #[trigger] line[k] != '\n'
    &&& !(line.len() > 0 && line.last() == '\r')
}

/// Lines that are read back as they were written: each is plain, and the
/// last one is not empty.
pub open spec fn are_plain_lines(all: Seq<Seq<char>>) -> bool {
    &&& forall|i: int| 0 <= i < all.len() ==> is_plain_line(#[trigger] all[i])
    &&& all.len() > 0 ==> all.last().len() > 0
}

/// What stands before the first line feed of a text that begins with a plain
/// line and a line feed, and what stands behind it.
proof fn lemma_first_line(first: Seq<char>, tail: Seq<char>)
    requires
        is_plain_line(first),
    ensures
        lines(first + seq!['\n'] + tail) == seq![first] + lines(tail),
{
    let text = first + seq!['\n'] + tail;
    let n = first.len() as int;
    assert forall|k: int| 0 <= k < n implies text[k] != '\n' by {
        assert(text[k] == first[k]);
    }
    assert(text[n] == '\n');
    lemma_line_len(text, n);
    assert(text.take(n) =~= first);
    assert(text.skip(n + 1) =~= tail);
    assert(strip_cr(first) == first);
}

/// Plain lines written with line feeds between them are read back as they
/// were.
pub proof fn lemma_lines_of_joined(all: Seq<Seq<char>>)
    requires
        are_plain_lines(all),
    ensures
        lines(join(all, seq!['\n'])) == all,
    decreases all.len(),
{
    let sep = seq!['\n'];
    let text = join(all, sep);
    if all.len() == 0 {
    } else if all.len() == 1 {
        let only = all[0];
        assert(is_plain_line(only));
        assert(all.last() == only);
        assert(text == only);
        lemma_line_len(only, only.len() as int);
        assert(lines(only) == seq![only]);
        assert(seq![only] =~= all);
    } else {
        let first = all[0];
        let rest = all.drop_first();
        assert(is_plain_line(first));
        lemma_join_first(all, sep);
        let tail = join(rest, sep);
        lemma_first_line(first, tail);
        assert(are_plain_lines(rest)) by {
            assert forall|i: int| 0 <= i < rest.len() implies is_plain_line(
                #[trigger] rest[i],
            ) by {
                assert(rest[i] == all[i + 1]);
            }
            assert(rest.last() == all.last());
        }
        lemma_lines_of_joined(rest);
        assert(seq![first] + rest =~= all);
    }
}

/// `text` without the white space at its front.
pub open spec fn trim_start(text: Seq<char>) -> Seq<char>
    decreases text.len(),
{
    if text.len() > 0 && is_whitespace(text[0]) {
        trim_start(text.drop_first())
    } else {
        text
    }
}

/// `text` without the white space at its end.
pub open spec fn trim_end(text: Seq<char>) -> Seq<char>
    decreases text.len(),
{
    if text.len() > 0 && is_whitespace(text.last()) {
        trim_end(text.drop_last())
    } else {
        text
    }
}

/// `text` without the white space at its front and at its end.
pub open spec fn trim(text: Seq<char>) -> Seq<char> {
    trim_end(trim_start(text))
}

/// How many characters stand before the first `c` of `text` (all of them,
/// if it has none).
pub open spec fn until(text: Seq<char>, c: char) -> nat
    decreases text.len(),
{
    if text.len() == 0 || text[0] == c {
        0
    } else {
        1 + until(text.drop_first(), c)
    }
}

/// The pieces of `text` between every two `c`, and before the first and
/// behind the last; a text without `c` is one piece.
pub open spec fn split(text: Seq<char>, c: char) -> Seq<Seq<char>>
    decreases text.len(),
{
    let n = until(text, c);
    if n >= text.len() {
        seq![text]
    } else {
        seq![text.take(n as int)] + split(text.skip(n as int + 1), c)
    }
}

/// Where the first `c` stands, `until` says so.
pub proof fn lemma_until(text: Seq<char>, c: char, n: int)
    requires
        0 <= n <= text.len(),
        forall|k: int| 0 <= k < n ==> text[k] != c,
        n == text.len() || text[n] == c,
    ensures
        until(text, c) == n,
    decreases n,
{
    if n > 0 {
        let rest = text.drop_first();
        assert forall|k: int| 0 <= k < n - 1 implies rest[k] != c by {
            assert(rest[k] == text[k + 1]);
        }
        lemma_until(rest, c, n - 1);
    }
}

/// What stands behind `n` white space characters is trimmed as the whole.
proof fn lemma_trim_start(text: Seq<char>, n: int)
    requires
        0 <= n <= text.len(),
        forall|k: int| 0 <= k < n ==> is_whitespace(text[k]),
    ensures
        trim_start(text) == trim_start(text.skip(n)),
    decreases n,
{
    if n == 0 {
        assert(text.skip(0) =~= text);
    } else {
        let rest = text.drop_first();
        assert forall|k: int| 0 <= k < n - 1 implies is_whitespace(rest[k]) by {
            assert(rest[k] == text[k + 1]);
        }
        lemma_trim_start(rest, n - 1);
        assert(rest.skip(n - 1) =~= text.skip(n));
    }
}

/// What stands before the last `n` white space characters is trimmed as the
/// whole.
proof fn lemma_trim_end(text: Seq<char>, n: int)
    requires
        0 <= n <= text.len(),
        forall|k: int| text.len() - n <= k < text.len() ==> is_whitespace(text[k]),
    ensures
        trim_end(text) == trim_end(text.take(text.len() - n)),
    decreases n,
{
    if n == 0 {
        assert(text.take(text.len() as int) =~= text);
    } else {
        let rest = text.drop_last();
        assert(is_whitespace(text[text.len() - 1]));
        assert forall|k: int| rest.len() - (n - 1) <= k < rest.len() implies is_whitespace(
            rest[k],
        ) by {
            assert(rest[k] == text[k]);
        }
        lemma_trim_end(rest, n - 1);
        assert(rest.take(rest.len() - (n - 1)) =~= text.take(text.len() - n));
    }
}

/// `text` without the white space at its front and at its end.
pub fn trimmed(text: &Vec<char>) -> (r: Vec<char>)
    ensures
        r@ == trim(text@),
{
    let mut start: usize = 0;
    while start < text.len() && char_is_whitespace(text[start])
        invariant
            start <= text.len(),
            forall|k: int| 0 <= k < start ==> is_whitespace(text@[k]),
        decreases text.len() - start,
    {
        start += 1;
    }
    let mut end: usize = text.len();
    while end > start && char_is_whitespace(text[end - 1])
        invariant
            start <= end <= text.len(),
            forall|k: int| end <= k < text.len() ==> is_whitespace(text@[k]),
        decreases end,
    {
        end -= 1;
    }
    let r = copy_range(text, start, end);
    proof {
        lemma_trim_start(text@, start as int);
        let front = text@.skip(start as int);
        assert(trim_start(front) == front) by {
            if front.len() > 0 {
                assert(front[0] == text@[start as int]);
            }
        }
        let n = text.len() - end;
        assert forall|k: int| front.len() - n <= k < front.len() implies is_whitespace(
            front[k],
        ) by {
            assert(front[k] == text@[k + start]);
        }
        lemma_trim_end(front, n);
        let core = front.take(front.len() - n);
        assert(core =~= text@.subrange(start as int, end as int));
        assert(trim_end(core) == core) by {
            if core.len() > 0 {
                assert(core.last() == text@[end - 1]);
            }
        }
    }
    r
}

/// The pieces of `text` between every two `c`.
pub fn split_at_each(text: &Vec<char>, c: char) -> (result: Vec<Vec<char>>)
    ensures
        views(result@) == split(text@, c),
{
    let mut result: Vec<Vec<char>> = Vec::new();
    let mut start: usize = 0;
    let mut i: usize = 0;
    assert(text@.skip(0) =~= text@);
    assert(views(result@) =~= Seq::<Seq<char>>::empty());
    while i < text.len()
        invariant
            start <= i <= text.len(),
            forall|k: int| start <= k < i ==> text@[k] != c,
            views(result@) + split(text@.skip(start as int), c) == split(text@, c),
        decreases text.len() - i,
    {
        if text[i] == c {
            let piece = copy_range(text, start, i);
            proof {
                let rest = text@.skip(start as int);
                lemma_until(rest, c, i - start);
                assert(piece@ =~= rest.take(i - start));
                assert(rest.skip(i - start + 1) =~= text@.skip(i + 1));
                lemma_views_push(result@, piece);
                assert(views(result@).push(piece@) + split(text@.skip(i + 1), c) =~= views(
                    result@,
                ) + (seq![piece@] + split(text@.skip(i + 1), c)));
            }
            result.push(piece);
            start = i + 1;
        }
        i += 1;
    }
    let piece = copy_range(text, start, text.len());
    proof {
        let rest = text@.skip(start as int);
        lemma_until(rest, c, rest.len() as int);
        assert(piece@ =~= rest);
        lemma_views_push(result@, piece);
        assert(views(result@).push(piece@) =~= views(result@) + seq![rest]);
    }
    result.push(piece);
    result
}

/// How many characters stand before the first `c` of `text`.
pub fn find_char(text: &Vec<char>, c: char) -> (n: usize)
    ensures
        n == until(text@, c),
        n <= text.len(),
{
    let mut i: usize = 0;
    while i < text.len() && text[i] != c
        invariant
            i <= text.len(),
            forall|k: int| 0 <= k < i ==> text@[k] != c,
        decreases text.len() - i,
    {
        i += 1;
    }
    proof {
        lemma_until(text@, c, i as int);
    }
    i
}

/// `itertools::join` over the strings of a list: the strings written one
/// after the other, `sep` between neighbours, nothing for an empty list.
#[verifier::external_body]
pub(crate) fn join_strings(items: &Vec<String>, sep: &str) -> (joined: String)
    ensures
        joined@ == join(string_views(items@), sep@),
{
    itertools::join(items.iter(), sep)
}

/// Where `key` stands in `pairs`, if it does: the first such place.
pub open spec fn first_place<V>(pairs: Seq<(Seq<char>, V)>, key: Seq<char>) -> Option<int>
    decreases pairs.len(),
{
    if pairs.len() == 0 {
        None
    } else {
        match first_place(pairs.drop_last(), key) {
            Some(i) => Some(i),
            None => if pairs.last().0 == key {
                Some(pairs.len() - 1)
            } else {
                None
            },
        }
    }
}

/// A first place is a place where the key stands, and it stands nowhere
/// before.
pub proof fn lemma_first_place<V>(pairs: Seq<(Seq<char>, V)>, key: Seq<char>)
    ensures
        match first_place(pairs, key) {
            Some(i) => 0 <= i < pairs.len() && pairs[i].0 == key && forall|k: int|
                0 <= k < i ==> (#[trigger] pairs[k]).0 != key,
            None => forall|k: int| 0 <= k < pairs.len() ==> (#[trigger] pairs[k]).0 != key,
        },
    decreases pairs.len(),
{
    if pairs.len() > 0 {
        let init = pairs.drop_last();
        lemma_first_place(init, key);
        match first_place(init, key) {
            Some(i) => {
                assert forall|k: int| 0 <= k < i implies (#[trigger] pairs[k]).0 != key by {
                    assert(init[k] == pairs[k]);
                }
            },
            None => {
                assert forall|k: int| 0 <= k < init.len() implies (#[trigger] pairs[k]).0
                    != key by {
                    assert(init[k] == pairs[k]);
                }
            },
        }
    }
}

} // verus!
