//! Environment variables of the user, exported from the shell's start-up
//! file.

use crate::targets::{join_path, path_below};
use crate::text::{first_place, join, join_strings, lemma_first_place, string_views};
use vstd::prelude::*;
use vstd::string::*;

verus! {

/// The variables to export, each name once, in the order in which the names
/// were first added, and the home directory of the user.
pub struct UserEnvVars {
    vars: Vec<(String, String)>,
    home: String,
}

/// A name with its value.
pub type Variable = (Seq<char>, Seq<char>);

/// The variables that a list of pairs holds.
pub open spec fn variable_views(vars: Seq<(String, String)>) -> Seq<Variable> {
    Seq::new(vars.len(), |i: int| (vars[i].0@, vars[i].1@))
}

/// `vars` with `name` set to `value`: in its place where it stood, else
/// behind the others.
pub open spec fn with_variable(vars: Seq<Variable>, name: Seq<char>, value: Seq<char>) -> Seq<
    Variable,
> {
    match first_place(vars, name) {
        Some(i) => vars.update(i, (name, value)),
        None => vars.push((name, value)),
    }
}

/// The line that exports `variable`.
pub open spec fn export_line(variable: Variable) -> Seq<char> {
    "export "@ + variable.0 + "='"@ + variable.1 + "'"@
}

impl UserEnvVars {
    /// The variables.
    pub closed spec fn vars(&self) -> Seq<Variable> {
        variable_views(self.vars@)
    }

    /// The home directory.
    pub closed spec fn home(&self) -> Seq<char> {
        self.home@
    }

    /// No variable, for the user whose home directory is `home`.
    pub fn new(home: String) -> (r: Self)
        ensures
            r.vars() == Seq::<Variable>::empty(),
            r.home() == home@,
    {
        let r = Self { vars: Vec::new(), home };
        assert(r.vars() =~= Seq::<Variable>::empty());
        r
    }

    /// Where `name` stands, if it does.
    fn find(&self, name: &String) -> (found: Option<usize>)
        ensures
            match found {
                Some(i) => i < self.vars.len() && first_place(self.vars(), name@) == Some(i as int),
                None => first_place(self.vars(), name@) is None,
            },
    {
        let mut i: usize = 0;
        while i < self.vars.len()
            invariant
                i <= self.vars.len(),
                forall|k: int| 0 <= k < i ==> (#[trigger] self.vars()[k]).0 != name@,
            decreases self.vars.len() - i,
        {
            if self.vars[i].0 == *name {
                proof {
                    lemma_first_place(self.vars(), name@);
                    assert(self.vars()[i as int].0 == name@);
                }
                return Some(i);
            }
            i += 1;
        }
        proof {
            lemma_first_place(self.vars(), name@);
        }
        None
    }

    /// The same variables with `key` set to `value`.
    pub fn add(self, key: &str, value: String) -> (r: Self)
        ensures
            r.vars() == with_variable(self.vars(), key@, value@),
            r.home() == self.home(),
    {
        let name = String::from_str(key);
        let found = self.find(&name);
        let ghost before = self.vars();
        let mut vars = self.vars;
        match found {
            Some(at) => {
                vars[at] = (name, value);
                assert(variable_views(vars@) =~= before.update(at as int, (key@, value@)));
            },
            None => {
                vars.push((name, value));
                assert(variable_views(vars@) =~= before.push((key@, value@)));
            },
        }
        Self { vars, home: self.home }
    }

    /// The lines that export the variables, with line feeds between them.
    pub fn script(&self) -> (text: String)
        ensures
            text@ == join(Seq::new(self.vars().len(), |i: int| export_line(self.vars()[i])), "\n"@),
    {
        let mut exports: Vec<String> = Vec::new();
        let mut i: usize = 0;
        assert(string_views(exports@) =~= Seq::new(0, |k: int| export_line(self.vars()[k])));
        while i < self.vars.len()
            invariant
                i <= self.vars.len(),
                string_views(exports@) == Seq::new(i as nat, |k: int| export_line(self.vars()[k])),
            decreases self.vars.len() - i,
        {
            let line = String::from_str("export ").concat(self.vars[i].0.as_str()).concat(
                "='",
            ).concat(self.vars[i].1.as_str()).concat("'");
            let ghost before = string_views(exports@);
            assert(line@ == export_line(self.vars()[i as int]));
            exports.push(line);
            assert(string_views(exports@) =~= before.push(line@));
            i += 1;
            assert(string_views(exports@) =~= Seq::new(
                i as nat,
                |k: int| export_line(self.vars()[k]),
            ));
        }
        join_strings(&exports, "\n")
    }

    /// The start-up file of the shell that the exports go to.
    pub fn bashrc_path(&self) -> (path: String)
        ensures
            path@ == path_below(self.home(), ".bashrc"@),
    {
        join_path(self.home.as_str(), ".bashrc")
    }
}

} // verus!
