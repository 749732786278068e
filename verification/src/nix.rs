//! `nix.conf` read as a whole: every `key = value` line of it, comments and
//! blank lines left out.

use crate::targets::personal_nix_cache::{hook_script, post_build_hook};
use crate::text::{
    find_char, first_place, from_chars, join, join_strings, lemma_first_place, lines, same_text,
    split, split_at_each, split_lines, string_views, to_chars, trim, trimmed, until, views,
};
use vstd::prelude::*;
use vstd::string::*;

verus! {

/// The settings of a `nix.conf`, each key once, in the order in which the
/// keys were first set. Two configurations are equal where they hold the
/// same settings in the same order: the same settings set in another order
/// make another configuration.
#[derive(Debug, PartialEq, Eq)]
pub struct Configuration(Vec<(String, String)>);

/// A line that is neither a comment nor an assignment.
#[derive(Debug)]
pub struct ParseError {
    pub line: String,
}

/// A key with its value.
pub type Setting = (Seq<char>, Seq<char>);

/// The settings that a list of pairs holds.
pub open spec fn setting_views(settings: Seq<(String, String)>) -> Seq<Setting> {
    Seq::new(settings.len(), |i: int| (settings[i].0@, settings[i].1@))
}

/// `settings` with `key` set to `value`: in its place where it was set, else
/// behind the others.
pub open spec fn with_value(settings: Seq<Setting>, key: Seq<char>, value: Seq<char>) -> Seq<
    Setting,
> {
    match first_place(settings, key) {
        Some(i) => settings.update(i, (key, value)),
        None => settings.push((key, value)),
    }
}

/// The value of `key`, or the empty text where it is not set.
pub open spec fn value_of(settings: Seq<Setting>, key: Seq<char>) -> Seq<char> {
    match first_place(settings, key) {
        Some(i) => settings[i].1,
        None => Seq::empty(),
    }
}

/// What one more line makes of `settings`: nothing for a blank line or a
/// comment; for an assignment the key, trimmed, set to the value, trimmed.
/// Any other line is an error and comes back trimmed.
pub open spec fn with_line(settings: Seq<Setting>, raw: Seq<char>) -> Result<
    Seq<Setting>,
    Seq<char>,
> {
    let line = trim(raw);
    let n = until(line, '=');
    if line.len() == 0 || line[0] == '#' {
        Ok(settings)
    } else if n >= line.len() {
        Err(line)
    } else {
        Ok(with_value(settings, trim(line.take(n as int)), trim(line.skip(n as int + 1))))
    }
}

/// What the lines of a file set, or the first line that is no assignment.
pub open spec fn read(all: Seq<Seq<char>>) -> Result<Seq<Setting>, Seq<char>>
    decreases all.len(),
{
    if all.len() == 0 {
        Ok(Seq::empty())
    } else {
        match read(all.drop_last()) {
            Ok(settings) => with_line(settings, all.last()),
            Err(line) => Err(line),
        }
    }
}

/// The line that sets `setting`.
pub open spec fn line_of(setting: Setting) -> Seq<char> {
    setting.0 + " = "@ + setting.1
}

/// The entries of a list value: the pieces between blanks that are not
/// blank themselves, each once, in the order in which they first stand.
pub open spec fn entries_of(pieces: Seq<Seq<char>>) -> Seq<Seq<char>>
    decreases pieces.len(),
{
    if pieces.len() == 0 {
        Seq::empty()
    } else {
        let entries = entries_of(pieces.drop_last());
        let piece = pieces.last();
        if trim(piece).len() == 0 || entries.contains(piece) {
            entries
        } else {
            entries.push(piece)
        }
    }
}

/// The list value `existing` with the entry `value`: the entries that it
/// had, and `value` behind them unless it is one of them.
pub open spec fn with_entry(existing: Seq<char>, value: Seq<char>) -> Seq<Seq<char>> {
    let entries = entries_of(split(existing, ' '));
    if entries.contains(value) {
        entries
    } else {
        entries.push(value)
    }
}

impl View for Configuration {
    type V = Seq<Setting>;

    closed spec fn view(&self) -> Seq<Setting> {
        setting_views(self.0@)
    }
}

/// Whether `list` holds `text`.
pub fn holds(list: &Vec<Vec<char>>, text: &Vec<char>) -> (r: bool)
    ensures
        r == views(list@).contains(text@),
{
    let mut i: usize = 0;
    while i < list.len()
        invariant
            i <= list.len(),
            forall|k: int| 0 <= k < i ==> views(list@)[k] != text@,
        decreases list.len() - i,
    {
        if same_text(&list[i], text) {
            assert(views(list@)[i as int] == text@);
            return true;
        }
        i += 1;
    }
    false
}

impl Configuration {
    /// No setting.
    pub fn new() -> (r: Self)
        ensures
            r@ == Seq::<Setting>::empty(),
    {
        let r = Configuration(Vec::new());
        assert(r@ =~= Seq::<Setting>::empty());
        r
    }

    /// Where `key` is set, if it is.
    fn find(&self, key: &String) -> (found: Option<usize>)
        ensures
            match found {
                Some(i) => i < self.0.len() && first_place(self@, key@) == Some(i as int),
                None => first_place(self@, key@) is None,
            },
    {
        let mut i: usize = 0;
        while i < self.0.len()
            invariant
                i <= self.0.len(),
                forall|k: int| 0 <= k < i ==> (#[trigger] self@[k]).0 != key@,
            decreases self.0.len() - i,
        {
            if self.0[i].0 == *key {
                proof {
                    lemma_first_place(self@, key@);
                    assert(self@[i as int].0 == key@);
                }
                return Some(i);
            }
            i += 1;
        }
        proof {
            lemma_first_place(self@, key@);
        }
        None
    }

    /// Sets `key` to `value`.
    fn set(&mut self, key: String, value: String)
        ensures
            final(self)@ == with_value(old(self)@, key@, value@),
    {
        match self.find(&key) {
            Some(i) => {
                self.0[i] = (key, value);
                assert(self@ =~= old(self)@.update(i as int, (key@, value@)));
            },
            None => {
                self.0.push((key, value));
                assert(self@ =~= old(self)@.push((key@, value@)));
            },
        }
    }

    /// The value of `key`, or the empty text where it is not set.
    pub fn get(&self, key: &str) -> (value: String)
        ensures
            value@ == value_of(self@, key@),
    {
        match self.find(&String::from_str(key)) {
            Some(i) => self.0[i].1.clone(),
            None => String::new(),
        }
    }

    /// The settings of a list of pairs; of two pairs with one key the later
    /// one counts.
    pub fn from_entries(entries: Vec<(String, String)>) -> (r: Self)
        ensures
            r@ == settings_of(setting_views(entries@)),
    {
        let mut r = Configuration::new();
        let ghost all = setting_views(entries@);
        assert(all.take(0) =~= Seq::<Setting>::empty());
        for entry in it: entries
            invariant
                it.seq() == entries@,
                all == setting_views(entries@),
                r@ == settings_of(all.take(it.index() as int)),
        {
            proof {
                let n = it.index() as int;
                assert(all.take(n + 1).drop_last() =~= all.take(n));
                assert(all.take(n + 1).last() == (entry.0@, entry.1@));
            }
            r.set(entry.0, entry.1);
        }
        assert(all.take(all.len() as int) =~= all);
        r
    }

    /// Reads the text of a `nix.conf`. Blank lines and lines that begin with
    /// `#` are passed over; every other line must hold a `=`, and sets what
    /// stands before it to what stands behind it, both trimmed. Of two lines
    /// that set one key the later one counts.
    pub fn parse(file_content: &str) -> (r: Result<Configuration, ParseError>)
        ensures
            match read(lines(file_content@)) {
                Ok(settings) => r matches Ok(conf) && conf@ == settings,
                Err(line) => r matches Err(e) && e.line@ == line,
            },
    {
        let text = to_chars(file_content);
        let all = split_lines(&text);
        let mut conf = Configuration::new();
        let mut i: usize = 0;
        assert(views(all@).take(0) =~= Seq::<Seq<char>>::empty());
        while i < all.len()
            invariant
                i <= all.len(),
                views(all@) == lines(file_content@),
                read(views(all@).take(i as int)) == Ok::<Seq<Setting>, Seq<char>>(conf@),
            decreases all.len() - i,
        {
            proof {
                assert(views(all@).take(i + 1).drop_last() =~= views(all@).take(i as int));
                assert(views(all@).take(i + 1).last() == all@[i as int]@);
            }
            let line = trimmed(&all[i]);
            if line.len() == 0 || line[0] == '#' {
            } else {
                let n = find_char(&line, '=');
                if n >= line.len() {
                    proof {
                        lemma_read_fails(views(all@), i + 1);
                    }
                    return Err(ParseError { line: from_chars(&line) });
                }
                let key = trimmed(&crate::text::copy_range(&line, 0, n));
                let value = trimmed(&crate::text::copy_range(&line, n + 1, line.len()));
                conf.set(from_chars(&key), from_chars(&value));
            }
            i += 1;
        }
        assert(views(all@).take(all.len() as int) =~= views(all@));
        Ok(conf)
    }

    /// The text of a `nix.conf` with these settings: one line for each, with
    /// line feeds between them.
    pub fn render(&self) -> (text: String)
        ensures
            text@ == join(Seq::new(self@.len(), |i: int| line_of(self@[i])), "\n"@),
    {
        let mut rendered: Vec<String> = Vec::new();
        let mut i: usize = 0;
        assert(string_views(rendered@) =~= Seq::new(0, |k: int| line_of(self@[k])));
        while i < self.0.len()
            invariant
                i <= self.0.len(),
                string_views(rendered@) == Seq::new(i as nat, |k: int| line_of(self@[k])),
            decreases self.0.len() - i,
        {
            let line = self.0[i].0.clone().concat(" = ").concat(self.0[i].1.as_str());
            let ghost before = string_views(rendered@);
            assert(line@ == line_of(self@[i as int]));
            rendered.push(line);
            assert(string_views(rendered@) =~= before.push(line@));
            i += 1;
            assert(string_views(rendered@) =~= Seq::new(i as nat, |k: int| line_of(self@[k])));
        }
        join_strings(&rendered, "\n")
    }

    /// Sets `conf_key` to `value`.
    pub fn replace_value(&mut self, conf_key: &str, value: &str)
        ensures
            final(self)@ == with_value(old(self)@, conf_key@, value@),
    {
        self.set(String::from_str(conf_key), String::from_str(value));
    }

    /// Adds `value` to the list that `conf_key` holds: the entries of the
    /// list are kept, each once, and `value` comes behind them unless it is
    /// one of them.
    pub fn append_to_list(&mut self, conf_key: &str, value: &str)
        ensures
            final(self)@ == with_value(
                old(self)@,
                conf_key@,
                join(with_entry(value_of(old(self)@, conf_key@), value@), " "@),
            ),
    {
        let existing = to_chars(self.get(conf_key).as_str());
        let pieces = split_at_each(&existing, ' ');
        let mut entries: Vec<Vec<char>> = Vec::new();
        let mut i: usize = 0;
        assert(views(pieces@).take(0) =~= Seq::<Seq<char>>::empty());
        assert(views(entries@) =~= Seq::<Seq<char>>::empty());
        while i < pieces.len()
            invariant
                i <= pieces.len(),
                views(entries@) == entries_of(views(pieces@).take(i as int)),
            decreases pieces.len() - i,
        {
            proof {
                assert(views(pieces@).take(i + 1).drop_last() =~= views(pieces@).take(i as int));
                assert(views(pieces@).take(i + 1).last() == pieces@[i as int]@);
            }
            let blank = trimmed(&pieces[i]).len() == 0;
            if !blank && !holds(&entries, &pieces[i]) {
                let piece = crate::text::clone_text(&pieces[i]);
                proof {
                    crate::text::lemma_views_push(entries@, piece);
                }
                entries.push(piece);
            }
            i += 1;
        }
        assert(views(pieces@).take(pieces.len() as int) =~= views(pieces@));
        let new_entry = to_chars(value);
        if !holds(&entries, &new_entry) {
            proof {
                crate::text::lemma_views_push(entries@, new_entry);
            }
            entries.push(new_entry);
        }
        let mut words: Vec<String> = Vec::new();
        let mut k: usize = 0;
        assert(string_views(words@) =~= views(entries@).take(0));
        while k < entries.len()
            invariant
                k <= entries.len(),
                string_views(words@) == views(entries@).take(k as int),
            decreases entries.len() - k,
        {
            let word = from_chars(&entries[k]);
            let ghost before = string_views(words@);
            words.push(word);
            assert(string_views(words@) =~= before.push(word@));
            assert(views(entries@).take(k + 1) =~= views(entries@).take(k as int).push(word@));
            k += 1;
        }
        assert(views(entries@).take(entries.len() as int) =~= views(entries@));
        let new_value = join_strings(&words, " ");
        self.set(String::from_str(conf_key), new_value);
    }

    /// Tells the configuration of a cache: its key is trusted, it is a
    /// substituter, and what was built is signed and uploaded to it by a
    /// hook. Returns the hook, which is to stand at `/etc/nix/post-build-hook`
    /// for anyone to run.
    pub fn add_cache(&mut self, public_key: &str, substituter: &str) -> (hook: String)
        ensures
            hook@ == hook_script(substituter@),
            final(self)@ == with_cache(old(self)@, public_key@, substituter@),
    {
        self.append_to_list("trusted-public-keys", public_key);
        self.append_to_list("substituters", substituter);
        self.replace_value("post-build-hook", "/etc/nix/post-build-hook");
        self.append_to_list("secret-key-files", "/etc/nix/secret-key");
        post_build_hook(substituter)
    }
}

/// `settings` with `value` added to the list that `key` holds.
pub open spec fn with_list_entry(settings: Seq<Setting>, key: Seq<char>, value: Seq<char>) -> Seq<
    Setting,
> {
    with_value(settings, key, join(with_entry(value_of(settings, key), value), " "@))
}

/// `settings` told of a cache.
pub open spec fn with_cache(settings: Seq<Setting>, public_key: Seq<char>, substituter: Seq<char>) -> Seq<
    Setting,
> {
    with_list_entry(
        with_value(
            with_list_entry(
                with_list_entry(settings, "trusted-public-keys"@, public_key),
                "substituters"@,
                substituter,
            ),
            "post-build-hook"@,
            "/etc/nix/post-build-hook"@,
        ),
        "secret-key-files"@,
        "/etc/nix/secret-key"@,
    )
}

/// The settings that a list of pairs comes to, first pair to last.
pub open spec fn settings_of(entries: Seq<Setting>) -> Seq<Setting>
    decreases entries.len(),
{
    if entries.len() == 0 {
        Seq::empty()
    } else {
        with_value(settings_of(entries.drop_last()), entries.last().0, entries.last().1)
    }
}

/// A file with a line that is no assignment is not read, whatever follows
/// the line.
pub proof fn lemma_read_fails(all: Seq<Seq<char>>, n: int)
    requires
        0 <= n <= all.len(),
        read(all.take(n)) is Err,
    ensures
        read(all) == read(all.take(n)),
    decreases all.len() - n,
{
    if n == all.len() {
        assert(all.take(n) =~= all);
    } else {
        assert(all.take(n + 1).drop_last() =~= all.take(n));
        lemma_read_fails(all, n + 1);
    }
}

} // verus!
