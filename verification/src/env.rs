//! Environment variable management for the shell.
//!
//! Keeps the variables as `(name, value)` pairs in increasing order of name,
//! which is the order in which they are listed, and the set of exported names.
//! Supports set, unset, export, expansion of `$VAR` references and loading
//! `KEY=VALUE` configuration text.

use vstd::prelude::*;
use crate::text::{
    char_is_alphanumeric, chars_of, find_char_from, is_alphanumeric, lemma_find_char_from,
    lemma_lt_asym, lemma_lt_total, lemma_lt_trans, lines, lines_of, push_char, push_str,
    seq_lt, seq_lt_exec, split_fold, split_on, starts_with, str_eq, string_of, string_of_range,
    trim, trim_chars,
};

verus! {

/// A variable listing: `(name, value)` pairs.
pub type Entries = Seq<(Seq<char>, Seq<char>)>;

/// The names of a listing are in strictly increasing order.
pub open spec fn keys_sorted(e: Entries) -> bool {
    forall|i: int, j: int| 0 <= i < j < e.len() ==> seq_lt(#[trigger] e[i].0, #[trigger] e[j].0)
}

/// The listing holds a variable called `k`.
pub open spec fn has_key(e: Entries, k: Seq<char>) -> bool {
    exists|i: int| 0 <= i < e.len() && (#[trigger] e[i]).0 == k
}

/// The variables of a listing as a map from name to value.
pub open spec fn entries_map(e: Entries) -> Map<Seq<char>, Seq<char>> {
    Map::new(
        |k: Seq<char>| has_key(e, k),
        |k: Seq<char>| e[key_index(e, k)].1,
    )
}

/// A position at which the listing holds the name `k` (meaningful when it has one).
pub open spec fn key_index(e: Entries, k: Seq<char>) -> int {
    choose|i: int| 0 <= i < e.len() && (#[trigger] e[i]).0 == k
}

/// In a sorted listing, a name occurs at one position only.
pub proof fn lemma_sorted_unique(e: Entries, i: int, j: int)
    requires
        keys_sorted(e),
        0 <= i < e.len(),
        0 <= j < e.len(),
        e[i].0 == e[j].0,
    ensures
        i == j,
{
    if i < j {
        assert(seq_lt(e[i].0, e[j].0));
        lemma_lt_asym(e[i].0, e[j].0, 0);
    } else if j < i {
        assert(seq_lt(e[j].0, e[i].0));
        lemma_lt_asym(e[j].0, e[i].0, 0);
    }
}

/// Reading the map at the name found at position `i`.
pub proof fn lemma_map_at(e: Entries, i: int)
    requires
        keys_sorted(e),
        0 <= i < e.len(),
    ensures
        entries_map(e).contains_key(e[i].0),
        entries_map(e)[e[i].0] == e[i].1,
{
    let k = e[i].0;
    assert(has_key(e, k));
    let j = key_index(e, k);
    lemma_sorted_unique(e, i, j);
    assert(entries_map(e).dom().contains(k));
}

/// Changing the value at position `i` updates the map at that name.
pub proof fn lemma_update_at(e: Entries, i: int, v: Seq<char>)
    requires
        keys_sorted(e),
        0 <= i < e.len(),
    ensures
        keys_sorted(e.update(i, (e[i].0, v))),
        entries_map(e.update(i, (e[i].0, v))) == entries_map(e).insert(e[i].0, v),
{
    let k = e[i].0;
    let e2 = e.update(i, (k, v));
    assert(keys_sorted(e2)) by {
        assert forall|a: int, b: int| 0 <= a < b < e2.len() implies seq_lt(
            #[trigger] e2[a].0,
            #[trigger] e2[b].0,
        ) by {
            assert(e2[a].0 == e[a].0 && e2[b].0 == e[b].0);
            assert(seq_lt(e[a].0, e[b].0));
        }
    }
    assert forall|x: Seq<char>| has_key(e2, x) == has_key(e, x) by {
        if has_key(e, x) {
            let j = choose|j: int| 0 <= j < e.len() && (#[trigger] e[j]).0 == x;
            assert(e2[j].0 == x);
        }
        if has_key(e2, x) {
            let j = choose|j: int| 0 <= j < e2.len() && (#[trigger] e2[j]).0 == x;
            assert(e[j].0 == x);
        }
    }
    assert forall|x: Seq<char>| #[trigger] has_key(e2, x) implies entries_map(e2)[x] == (
    if x == k {
        v
    } else {
        entries_map(e)[x]
    }) by {
        let j = choose|j: int| 0 <= j < e2.len() && (#[trigger] e2[j]).0 == x;
        lemma_map_at(e2, j);
        lemma_map_at(e, j);
        if x == k {
            lemma_sorted_unique(e, i, j);
        } else {
            assert(j != i);
        }
    }
    assert(entries_map(e2) =~= entries_map(e).insert(k, v));
}

/// Inserting a new name at its place keeps the listing sorted and adds it to the map.
pub proof fn lemma_insert_at(e: Entries, i: int, k: Seq<char>, v: Seq<char>)
    requires
        keys_sorted(e),
        0 <= i <= e.len(),
        forall|j: int| 0 <= j < i ==> seq_lt(#[trigger] e[j].0, k),
        i < e.len() ==> seq_lt(k, e[i].0),
    ensures
        keys_sorted(e.insert(i, (k, v))),
        entries_map(e.insert(i, (k, v))) == entries_map(e).insert(k, v),
{
    let e2 = e.insert(i, (k, v));
    assert forall|j: int| i < j < e.len() implies seq_lt(k, #[trigger] e[j].0) by {
        assert(seq_lt(e[i].0, e[j].0));
        lemma_lt_trans(k, e[i].0, e[j].0, 0);
    }
    assert(keys_sorted(e2)) by {
        assert forall|a: int, b: int| 0 <= a < b < e2.len() implies seq_lt(
            #[trigger] e2[a].0,
            #[trigger] e2[b].0,
        ) by {
            if b < i {
                assert(seq_lt(e[a].0, e[b].0));
            } else if b == i {
                assert(e2[a] == e[a]);
            } else if a == i {
                assert(e2[b] == e[b - 1]);
            } else if a < i {
                assert(e2[a] == e[a] && e2[b] == e[b - 1]);
                assert(seq_lt(e[a].0, e[b - 1].0));
            } else {
                assert(e2[a] == e[a - 1] && e2[b] == e[b - 1]);
                assert(seq_lt(e[a - 1].0, e[b - 1].0));
            }
        }
    }
    assert forall|j: int| 0 <= j < e.len() implies e[j].0 != k by {
        if j < i {
            lemma_lt_asym(e[j].0, k, 0);
        } else {
            lemma_lt_asym(k, e[j].0, 0);
        }
    }
    assert forall|x: Seq<char>| has_key(e2, x) == (has_key(e, x) || x == k) by {
        if has_key(e, x) {
            let j = choose|j: int| 0 <= j < e.len() && (#[trigger] e[j]).0 == x;
            if j < i {
                assert(e2[j].0 == x);
            } else {
                assert(e2[j + 1].0 == x);
            }
        }
        if x == k {
            assert(e2[i].0 == x);
        }
        if has_key(e2, x) && x != k {
            let j = choose|j: int| 0 <= j < e2.len() && (#[trigger] e2[j]).0 == x;
            if j < i {
                assert(e[j].0 == x);
            } else if j > i {
                assert(e[j - 1].0 == x);
            }
        }
    }
    assert forall|x: Seq<char>| #[trigger] has_key(e2, x) implies entries_map(e2)[x] == (
    if x == k {
        v
    } else {
        entries_map(e)[x]
    }) by {
        let j = choose|j: int| 0 <= j < e2.len() && (#[trigger] e2[j]).0 == x;
        lemma_map_at(e2, j);
        if j < i {
            lemma_map_at(e, j);
        } else if j > i {
            lemma_map_at(e, j - 1);
        }
    }
    assert(entries_map(e2) =~= entries_map(e).insert(k, v));
}

/// Removing the entry at position `i` removes its name from the map.
pub proof fn lemma_remove_at(e: Entries, i: int)
    requires
        keys_sorted(e),
        0 <= i < e.len(),
    ensures
        keys_sorted(e.remove(i)),
        entries_map(e.remove(i)) == entries_map(e).remove(e[i].0),
{
    let k = e[i].0;
    let e2 = e.remove(i);
    assert(keys_sorted(e2)) by {
        assert forall|a: int, b: int| 0 <= a < b < e2.len() implies seq_lt(
            #[trigger] e2[a].0,
            #[trigger] e2[b].0,
        ) by {
            let a0 = if a < i {
                a
            } else {
                a + 1
            };
            let b0 = if b < i {
                b
            } else {
                b + 1
            };
            assert(e2[a] == e[a0] && e2[b] == e[b0]);
            assert(seq_lt(e[a0].0, e[b0].0));
        }
    }
    assert forall|x: Seq<char>| has_key(e2, x) == (has_key(e, x) && x != k) by {
        if has_key(e, x) && x != k {
            let j = choose|j: int| 0 <= j < e.len() && (#[trigger] e[j]).0 == x;
            if j < i {
                assert(e2[j].0 == x);
            } else {
                assert(j != i);
                assert(e2[j - 1].0 == x);
            }
        }
        if has_key(e2, x) {
            let j = choose|j: int| 0 <= j < e2.len() && (#[trigger] e2[j]).0 == x;
            let j0 = if j < i {
                j
            } else {
                j + 1
            };
            assert(e[j0].0 == x);
            if x == k {
                lemma_sorted_unique(e, i, j0);
            }
        }
    }
    assert forall|x: Seq<char>| #[trigger] has_key(e2, x) implies entries_map(e2)[x]
        == entries_map(e)[x] by {
        let j = choose|j: int| 0 <= j < e2.len() && (#[trigger] e2[j]).0 == x;
        lemma_map_at(e2, j);
        if j < i {
            lemma_map_at(e, j);
        } else {
            lemma_map_at(e, j + 1);
        }
    }
    assert(entries_map(e2) =~= entries_map(e).remove(k));
}

/// The name `HOME`.
pub open spec fn key_home() -> Seq<char> {
    seq!['H', 'O', 'M', 'E']
}

/// The name `PWD`.
pub open spec fn key_pwd() -> Seq<char> {
    seq!['P', 'W', 'D']
}

/// The name `PATH`.
pub open spec fn key_path() -> Seq<char> {
    seq!['P', 'A', 'T', 'H']
}

/// The value `/`.
pub open spec fn root_dir() -> Seq<char> {
    seq!['/']
}

/// The value of `k` in `vars`, or `default` when it is not set.
pub open spec fn get_or(vars: Map<Seq<char>, Seq<char>>, k: Seq<char>, default: Seq<char>) -> Seq<
    char,
> {
    if vars.contains_key(k) {
        vars[k]
    } else {
        default
    }
}

/// Environment variable store.
pub struct Environment {
    /// All variables as (name, value), in increasing order of name.
    vars: Vec<(String, String)>,
    /// Names marked as exported (visible to child commands), each once.
    exported: Vec<String>,
}

impl Environment {
    /// The variables as (name, value) pairs, in increasing order of name.
    pub closed spec fn entries(&self) -> Entries {
        self.vars@.map_values(|p: (String, String)| (p.0@, p.1@))
    }

    /// The variables as a map from name to value.
    pub open spec fn vars(&self) -> Map<Seq<char>, Seq<char>> {
        entries_map(self.entries())
    }

    /// The names marked as exported.
    pub closed spec fn exported(&self) -> Set<Seq<char>> {
        self.exported@.map_values(|s: String| s@).to_set()
    }

    /// The listing is sorted by name and the exported names are distinct.
    #[verifier::type_invariant]
    closed spec fn wf(&self) -> bool {
        &&& keys_sorted(self.entries())
        &&& self.exported@.map_values(|s: String| s@).no_duplicates()
    }

    /// The current working directory as the model sees it.
    pub open spec fn pwd_spec(&self) -> Seq<char> {
        get_or(self.vars(), key_pwd(), root_dir())
    }

    /// The home directory as the model sees it.
    pub open spec fn home_spec(&self) -> Seq<char> {
        get_or(self.vars(), key_home(), root_dir())
    }

    /// Create an environment with no variables.
    fn empty() -> (r: Self)
        ensures
            r.vars() == Map::<Seq<char>, Seq<char>>::empty(),
            r.exported() == Set::<Seq<char>>::empty(),
    {
        let r = Environment { vars: Vec::new(), exported: Vec::new() };
        assert(r.entries() =~= Seq::<(Seq<char>, Seq<char>)>::empty());
        assert(r.vars() =~= Map::<Seq<char>, Seq<char>>::empty());
        assert(r.exported@.map_values(|s: String| s@) =~= Seq::<Seq<char>>::empty());
        assert(r.exported() =~= Set::<Seq<char>>::empty());
        r
    }

    /// Position of the variable `key` in the listing, if present.
    fn find(&self, key: &str) -> (r: Option<usize>)
        ensures
            r matches Some(i) ==> i < self.entries().len() && self.entries()[i as int].0 == key@,
            r is None ==> !self.vars().contains_key(key@),
    {
        let mut i: usize = 0;
        while i < self.vars.len()
            invariant
                i <= self.vars@.len(),
                forall|j: int| 0 <= j < i ==> (#[trigger] self.entries()[j]).0 != key@,
            decreases self.vars@.len() - i,
        {
            if str_eq(self.vars[i].0.as_str(), key) {
                return Some(i);
            }
            i = i + 1;
        }
        None
    }

    /// Whether the name at position `i` comes before `k`.
    fn entry_before(&self, i: usize, k: &[char]) -> (r: bool)
        requires
            i < self.entries().len(),
        ensures
            r == seq_lt(self.entries()[i as int].0, k@),
    {
        let ic = chars_of(self.vars[i].0.as_str());
        seq_lt_exec(ic.as_slice(), k)
    }

    /// Get the value of an environment variable.
    pub fn get(&self, key: &str) -> (r: Option<&str>)
        ensures
            r is Some <==> self.vars().contains_key(key@),
            r matches Some(v) ==> v@ == self.vars()[key@],
    {
        proof {
            use_type_invariant(self);
        }
        match self.find(key) {
            Some(i) => {
                proof {
                    lemma_map_at(self.entries(), i as int);
                }
                Some(self.vars[i].1.as_str())
            },
            None => None,
        }
    }

    /// Set an environment variable.
    pub fn set(&mut self, key: &str, value: &str)
        ensures
            final(self).vars() == old(self).vars().insert(key@, value@),
            final(self).exported() == old(self).exported(),
    {
        proof {
            use_type_invariant(&*self);
        }
        let kc = chars_of(key);
        let mut i: usize = 0;
        while i < self.vars.len() && self.entry_before(i, kc.as_slice())
            invariant
                i <= self.vars@.len(),
                kc@ == key@,
                keys_sorted(self.entries()),
                forall|j: int| 0 <= j < i ==> seq_lt(#[trigger] self.entries()[j].0, key@),
            decreases self.vars@.len() - i,
        {
            i = i + 1;
        }
        let ghost e = self.entries();
        let found = i < self.vars.len() && str_eq(self.vars[i].0.as_str(), key);
        let mut vars: Vec<(String, String)> = Vec::new();
        std::mem::swap(&mut vars, &mut self.vars);
        if found {
            proof {
                lemma_update_at(e, i as int, value@);
            }
            vars.set(i, (String::from_str(key), String::from_str(value)));
            assert(vars@.map_values(|p: (String, String)| (p.0@, p.1@)) =~= e.update(
                i as int,
                (e[i as int].0, value@),
            ));
        } else {
            proof {
                if i < e.len() {
                    lemma_lt_total(e[i as int].0, key@, 0);
                }
                lemma_insert_at(e, i as int, key@, value@);
            }
            vars.insert(i, (String::from_str(key), String::from_str(value)));
            assert(vars@.map_values(|p: (String, String)| (p.0@, p.1@)) =~= e.insert(
                i as int,
                (key@, value@),
            ));
        }
        self.vars = vars;
    }

    /// Unset (remove) an environment variable.
    pub fn unset(&mut self, key: &str)
        ensures
            final(self).vars() == old(self).vars().remove(key@),
            final(self).exported() == old(self).exported().remove(key@),
    {
        proof {
            use_type_invariant(&*self);
        }
        match self.find(key) {
            Some(i) => {
                let ghost e = self.entries();
                proof {
                    lemma_remove_at(e, i as int);
                }
                let mut vars: Vec<(String, String)> = Vec::new();
                std::mem::swap(&mut vars, &mut self.vars);
                vars.remove(i);
                assert(vars@.map_values(|p: (String, String)| (p.0@, p.1@)) =~= e.remove(i as int));
                self.vars = vars;
            },
            None => {
                assert(self.vars() =~= old(self).vars().remove(key@));
            },
        }
        self.unexport(key);
    }

    /// Position of `key` among the exported names, if present.
    fn find_exported(&self, key: &str) -> (r: Option<usize>)
        ensures
            r matches Some(i) ==> i < self.exported@.len() && self.exported@[i as int]@ == key@,
            r is None ==> !self.exported().contains(key@),
    {
        let mut i: usize = 0;
        while i < self.exported.len()
            invariant
                i <= self.exported@.len(),
                forall|j: int| 0 <= j < i ==> (#[trigger] self.exported@[j])@ != key@,
            decreases self.exported@.len() - i,
        {
            if str_eq(self.exported[i].as_str(), key) {
                return Some(i);
            }
            i = i + 1;
        }
        proof {
            if self.exported().contains(key@) {
                let names = self.exported@.map_values(|s: String| s@);
                let j = choose|j: int| 0 <= j < names.len() && names[j] == key@;
                assert(self.exported@[j]@ == key@);
            }
        }
        None
    }

    /// Removes `key` from the exported names.
    fn unexport(&mut self, key: &str)
        ensures
            final(self).exported() == old(self).exported().remove(key@),
            final(self).vars() == old(self).vars(),
    {
        proof {
            use_type_invariant(&*self);
        }
        match self.find_exported(key) {
            Some(i) => {
                let ghost names = self.exported@.map_values(|s: String| s@);
                let mut exported: Vec<String> = Vec::new();
                std::mem::swap(&mut exported, &mut self.exported);
                exported.remove(i);
                let ghost names2 = exported@.map_values(|s: String| s@);
                assert(names2 =~= names.remove(i as int));
                proof {
                    assert(names2.no_duplicates()) by {
                        assert forall|a: int, b: int|
                            0 <= a < names2.len() && 0 <= b < names2.len() && a != b implies
                            names2[a] != names2[b] by {
                            let a0 = if a < i {
                                a
                            } else {
                                a + 1
                            };
                            let b0 = if b < i {
                                b
                            } else {
                                b + 1
                            };
                            assert(names2[a] == names[a0] && names2[b] == names[b0]);
                        }
                    }
                    assert forall|x: Seq<char>| #[trigger] names2.contains(x) == (names.contains(x) && x != key@) by {
                        if names.contains(x) && x != key@ {
                            let j = choose|j: int| 0 <= j < names.len() && names[j] == x;
                            if j < i {
                                assert(names2[j] == x);
                            } else {
                                assert(j != i);
                                assert(names2[j - 1] == x);
                            }
                        }
                        if names2.contains(x) {
                            let j = choose|j: int| 0 <= j < names2.len() && names2[j] == x;
                            let j0 = if j < i {
                                j
                            } else {
                                j + 1
                            };
                            assert(names[j0] == x);
                            assert(j0 != i);
                            assert(names[i as int] == key@);
                            assert(names[j0] != names[i as int]);
                        }
                    }
                    assert(names2.to_set() =~= names.to_set().remove(key@));
                }
                self.exported = exported;
            },
            None => {
                assert(self.exported() =~= old(self).exported().remove(key@));
            },
        }
    }

    /// Mark a variable as exported.
    pub fn export(&mut self, key: &str)
        ensures
            final(self).exported() == old(self).exported().insert(key@),
            final(self).vars() == old(self).vars(),
    {
        proof {
            use_type_invariant(&*self);
        }
        match self.find_exported(key) {
            Some(i) => {
                assert(self.exported@.map_values(|s: String| s@)[i as int] == key@);
                assert(self.exported() =~= old(self).exported().insert(key@));
            },
            None => {
                let ghost names = self.exported@.map_values(|s: String| s@);
                let mut exported: Vec<String> = Vec::new();
                std::mem::swap(&mut exported, &mut self.exported);
                exported.push(String::from_str(key));
                let ghost names2 = exported@.map_values(|s: String| s@);
                assert(names2 =~= names.push(key@));
                proof {
                    assert(!names.contains(key@));
                    assert(names2.no_duplicates()) by {
                        assert forall|a: int, b: int|
                            0 <= a < names2.len() && 0 <= b < names2.len() && a != b implies
                            names2[a] != names2[b] by {
                            if a < names.len() && b < names.len() {
                                assert(names2[a] == names[a] && names2[b] == names[b]);
                            } else if a < names.len() {
                                assert(names.contains(names[a]));
                            } else if b < names.len() {
                                assert(names.contains(names[b]));
                            }
                        }
                    }
                    assert forall|x: Seq<char>| #[trigger] names2.contains(x) == (names.contains(x) || x == key@) by {
                        if names.contains(x) {
                            let j = choose|j: int| 0 <= j < names.len() && names[j] == x;
                            assert(names2[j] == x);
                        }
                        if x == key@ {
                            assert(names2[names.len() as int] == x);
                        }
                        if names2.contains(x) && x != key@ {
                            let j = choose|j: int| 0 <= j < names2.len() && names2[j] == x;
                            assert(names[j] == x);
                        }
                    }
                    assert(names2.to_set() =~= names.to_set().insert(key@));
                }
                self.exported = exported;
            },
        }
    }

    /// Set and export in one call (like `export VAR=value`).
    pub fn set_export(&mut self, key: &str, value: &str)
        ensures
            final(self).vars() == old(self).vars().insert(key@, value@),
            final(self).exported() == old(self).exported().insert(key@),
    {
        self.set(key, value);
        self.export(key);
    }

    /// Check if a variable is exported.
    pub fn is_exported(&self, key: &str) -> (r: bool)
        ensures
            r == self.exported().contains(key@),
    {
        match self.find_exported(key) {
            Some(i) => {
                assert(self.exported@.map_values(|s: String| s@)[i as int] == key@);
                true
            },
            None => false,
        }
    }

    /// Create a new environment with the default variables.
    pub fn new() -> (r: Self)
        ensures
            r.vars() == default_vars(),
            r.exported() == Set::<Seq<char>>::empty(),
    {
        let mut env = Environment::empty();
        env.set("HOME", "/");
        env.set("USER", "root");
        env.set("HOSTNAME", "claudio");
        env.set("PWD", "/");
        env.set("PATH", "/bin:/usr/bin");
        env.set("SHELL", "/bin/shell-nostd");
        env.set("TERM", "claudio-term");
        env.set("LANG", "en_US.UTF-8");
        proof {
            reveal_strlit("HOME");
            reveal_strlit("/");
            reveal_strlit("USER");
            reveal_strlit("root");
            reveal_strlit("HOSTNAME");
            reveal_strlit("claudio");
            reveal_strlit("PWD");
            reveal_strlit("PATH");
            reveal_strlit("/bin:/usr/bin");
            reveal_strlit("SHELL");
            reveal_strlit("/bin/shell-nostd");
            reveal_strlit("TERM");
            reveal_strlit("claudio-term");
            reveal_strlit("LANG");
            reveal_strlit("en_US.UTF-8");
            assert("HOME"@ =~= key_home());
            assert("/"@ =~= root_dir());
            assert("USER"@ =~= seq!['U', 'S', 'E', 'R']);
            assert("root"@ =~= seq!['r', 'o', 'o', 't']);
            assert("HOSTNAME"@ =~= seq!['H', 'O', 'S', 'T', 'N', 'A', 'M', 'E']);
            assert("claudio"@ =~= seq!['c', 'l', 'a', 'u', 'd', 'i', 'o']);
            assert("PWD"@ =~= key_pwd());
            assert("PATH"@ =~= key_path());
            assert("/bin:/usr/bin"@ =~= seq!['/', 'b', 'i', 'n', ':', '/', 'u', 's', 'r', '/', 'b', 'i', 'n']);
            assert("SHELL"@ =~= seq!['S', 'H', 'E', 'L', 'L']);
            assert("/bin/shell-nostd"@ =~= seq!['/', 'b', 'i', 'n', '/', 's', 'h', 'e', 'l', 'l', '-', 'n', 'o', 's', 't', 'd']);
            assert("TERM"@ =~= seq!['T', 'E', 'R', 'M']);
            assert("claudio-term"@ =~= seq!['c', 'l', 'a', 'u', 'd', 'i', 'o', '-', 't', 'e', 'r', 'm']);
            assert("LANG"@ =~= seq!['L', 'A', 'N', 'G']);
            assert("en_US.UTF-8"@ =~= seq!['e', 'n', '_', 'U', 'S', '.', 'U', 'T', 'F', '-', '8']);
            assert(env.vars() =~= default_vars());
        }
        env
    }

    /// Get the current working directory (`/` when `PWD` is unset).
    pub fn pwd(&self) -> (r: &str)
        ensures
            r@ == self.pwd_spec(),
    {
        proof {
            reveal_strlit("PWD");
            reveal_strlit("/");
            assert("PWD"@ =~= key_pwd());
            assert("/"@ =~= root_dir());
        }
        match self.get("PWD") {
            Some(p) => p,
            None => "/",
        }
    }

    /// Set the current working directory.
    pub fn set_pwd(&mut self, path: &str)
        ensures
            final(self).vars() == old(self).vars().insert(key_pwd(), path@),
            final(self).exported() == old(self).exported(),
    {
        proof {
            reveal_strlit("PWD");
            assert("PWD"@ =~= key_pwd());
        }
        self.set("PWD", path);
    }

    /// Get the HOME directory (`/` when `HOME` is unset).
    pub fn home(&self) -> (r: &str)
        ensures
            r@ == self.home_spec(),
    {
        proof {
            reveal_strlit("HOME");
            reveal_strlit("/");
            assert("HOME"@ =~= key_home());
            assert("/"@ =~= root_dir());
        }
        match self.get("HOME") {
            Some(h) => h,
            None => "/",
        }
    }

    /// Get PATH entries as a vector: the pieces of `PATH` between colons, or
    /// nothing when `PATH` is unset.
    pub fn path_entries(&self) -> (r: Vec<&str>)
        ensures
            r@.map_values(|s: &str| s@) == (if self.vars().contains_key(key_path()) {
                split_on(self.vars()[key_path()], ':')
            } else {
                Seq::empty()
            }),
    {
        proof {
            reveal_strlit("PATH");
            assert("PATH"@ =~= key_path());
        }
        let mut r: Vec<&str> = Vec::new();
        match self.get("PATH") {
            None => {
                assert(r@.map_values(|s: &str| s@) =~= Seq::<Seq<char>>::empty());
            },
            Some(path) => {
                let c = chars_of(path);
                let mut start: usize = 0;
                let mut i: usize = 0;
                assert(r@.map_values(|s: &str| s@) =~= Seq::<Seq<char>>::empty());
                assert(c@.subrange(0, 0) =~= Seq::<char>::empty());
                while i < c.len()
                    invariant
                        c@ == path@,
                        start <= i <= c@.len(),
                        split_on(path@, ':') == split_fold(
                            path@,
                            ':',
                            i as int,
                            c@.subrange(start as int, i as int),
                            r@.map_values(|s: &str| s@),
                        ),
                    decreases c@.len() - i,
                {
                    let ghost acc = r@.map_values(|s: &str| s@);
                    if c[i] == ':' {
                        r.push(path.substring_char(start, i));
                        assert(r@.map_values(|s: &str| s@) =~= acc.push(
                            c@.subrange(start as int, i as int),
                        ));
                        start = i + 1;
                        assert(c@.subrange(start as int, start as int) =~= Seq::<char>::empty());
                    } else {
                        assert(c@.subrange(start as int, i + 1) =~= c@.subrange(
                            start as int,
                            i as int,
                        ).push(c@[i as int]));
                    }
                    i = i + 1;
                }
                let ghost acc = r@.map_values(|s: &str| s@);
                r.push(path.substring_char(start, c.len()));
                assert(r@.map_values(|s: &str| s@) =~= acc.push(
                    c@.subrange(start as int, c@.len() as int),
                ));
            },
        }
        r
    }

    /// Return all variables as (name, value) pairs, in increasing order of name.
    pub fn all(&self) -> (r: Vec<(&str, &str)>)
        ensures
            r@.map_values(|p: (&str, &str)| (p.0@, p.1@)) == self.entries(),
            keys_sorted(self.entries()),
    {
        proof {
            use_type_invariant(self);
        }
        let mut r: Vec<(&str, &str)> = Vec::new();
        let mut i: usize = 0;
        while i < self.vars.len()
            invariant
                i <= self.vars@.len(),
                r@.map_values(|p: (&str, &str)| (p.0@, p.1@)) == self.entries().take(i as int),
            decreases self.vars@.len() - i,
        {
            let ghost before = r@.map_values(|p: (&str, &str)| (p.0@, p.1@));
            let k = self.vars[i].0.as_str();
            let v = self.vars[i].1.as_str();
            r.push((k, v));
            assert(self.entries()[i as int] == (k@, v@));
            assert(r@.map_values(|p: (&str, &str)| (p.0@, p.1@)) =~= before.push((k@, v@)));
            assert(self.entries().take(i + 1) =~= self.entries().take(i as int).push(
                self.entries()[i as int],
            ));
            i = i + 1;
        }
        assert(self.entries().take(i as int) =~= self.entries());
        r
    }

    /// Return only exported variables, in increasing order of name.
    pub fn exported_vars(&self) -> (r: Vec<(&str, &str)>)
        ensures
            r@.map_values(|p: (&str, &str)| (p.0@, p.1@)) == self.entries().filter(
                |p: (Seq<char>, Seq<char>)| self.exported().contains(p.0),
            ),
    {
        let ghost pred = |p: (Seq<char>, Seq<char>)| self.exported().contains(p.0);
        let mut r: Vec<(&str, &str)> = Vec::new();
        let mut i: usize = 0;
        assert(self.entries().take(0).filter(pred) =~= Seq::<(Seq<char>, Seq<char>)>::empty())
            by {
            reveal(Seq::filter);
        }
        assert(r@.map_values(|p: (&str, &str)| (p.0@, p.1@)) =~= Seq::<
            (Seq<char>, Seq<char>),
        >::empty());
        while i < self.vars.len()
            invariant
                i <= self.vars@.len(),
                pred == (|p: (Seq<char>, Seq<char>)| self.exported().contains(p.0)),
                r@.map_values(|p: (&str, &str)| (p.0@, p.1@)) == self.entries().take(
                    i as int,
                ).filter(pred),
            decreases self.vars@.len() - i,
        {
            let ghost before = r@.map_values(|p: (&str, &str)| (p.0@, p.1@));
            assert(self.entries().take(i + 1).drop_last() =~= self.entries().take(i as int));
            if self.is_exported(self.vars[i].0.as_str()) {
                r.push((self.vars[i].0.as_str(), self.vars[i].1.as_str()));
                assert(r@.map_values(|p: (&str, &str)| (p.0@, p.1@)) =~= before.push(
                    self.entries()[i as int],
                ));
            } else {
                assert(r@.map_values(|p: (&str, &str)| (p.0@, p.1@)) =~= before);
            }
            assert(r@.map_values(|p: (&str, &str)| (p.0@, p.1@)) == self.entries().take(
                i + 1,
            ).filter(pred)) by {
                reveal(Seq::filter);
            }
            i = i + 1;
        }
        assert(self.entries().take(i as int) =~= self.entries());
        r
    }

    /// Expand environment variable references in a string.
    /// Handles `$VAR` and `${VAR}` (unset variables expand to nothing), `$?`
    /// and a leading `~` (expands to the home directory). The environment
    /// alone knows no exit code, so here `$?` expands to `0`; the shell passes
    /// its last exit code to `expand_vars_with_status`.
    pub fn expand_vars(&self, input: &str) -> (r: String)
        ensures
            r@ == expand_from(self.vars(), self.home_spec(), input@, 0, "0"@),
    {
        proof {
            reveal_strlit("0");
        }
        self.expand_vars_with_status(input, "0")
    }

    /// Expand variable references as `expand_vars` does, with `$?` standing
    /// for `status`, the last exit code.
    pub fn expand_vars_with_status(&self, input: &str, status: &str) -> (r: String)
        ensures
            r@ == expand_from(self.vars(), self.home_spec(), input@, 0, status@),
    {
        let chars = chars_of(input);
        let home = self.home();
        let ghost vars = self.vars();
        let ghost hs = self.home_spec();
        let mut result = String::new();
        let mut i: usize = 0;
        while i < chars.len()
            invariant
                chars@ == input@,
                vars == self.vars(),
                hs == self.home_spec(),
                home@ == hs,
                i <= chars@.len(),
                expand_from(vars, hs, input@, 0, status@) == result@ + expand_from(vars, hs, input@, i as int, status@),
            decreases chars@.len() - i,
        {
            let ghost s = input@;
            let ghost before = result@;
            if chars[i] == '$' && i + 1 < chars.len() {
                if chars[i + 1] == '{' {
                    let close = crate::text::find_char_exec(chars.as_slice(), i + 2, '}');
                    proof {
                        lemma_find_char_from(s, i + 2, '}');
                    }
                    if close < chars.len() {
                        let name = string_of_range(chars.as_slice(), i + 2, close);
                        if let Some(val) = self.get(name.as_str()) {
                            push_str(&mut result, val);
                        }
                        assert(result@ + expand_from(vars, hs, s, close + 1, status@) =~= before + (
                        lookup_or_empty(vars, s.subrange(i + 2, close as int)) + expand_from(
                            vars,
                            hs,
                            s,
                            close + 1, status@,
                        )));
                        i = close + 1;
                        continue;
                    }
                } else if chars[i + 1] == '?' {
                    push_str(&mut result, status);
                    assert(result@ + expand_from(vars, hs, s, i + 2, status@) =~= before + (status@
                        + expand_from(vars, hs, s, i + 2, status@)));
                    i = i + 2;
                    continue;
                } else {
                    let start = i + 1;
                    let mut end = start;
                    while end < chars.len() && (is_alphanumeric(chars[end]) || chars[end] == '_')
                        invariant
                            chars@ == input@,
                            start <= end <= chars@.len(),
                            name_end(input@, start as int) == name_end(input@, end as int),
                        decreases chars@.len() - end,
                    {
                        end = end + 1;
                    }
                    proof {
                        lemma_name_end(s, start as int);
                    }
                    if end > start {
                        let name = string_of_range(chars.as_slice(), start, end);
                        if let Some(val) = self.get(name.as_str()) {
                            push_str(&mut result, val);
                        }
                        assert(result@ + expand_from(vars, hs, s, end as int, status@) =~= before + (
                        lookup_or_empty(vars, s.subrange(start as int, end as int))
                            + expand_from(vars, hs, s, end as int, status@)));
                        i = end;
                        continue;
                    }
                }
            }
            if chars[i] == '~' && (i == 0 || chars[i - 1] == ' ' || chars[i - 1] == '=') {
                if i + 1 >= chars.len() || chars[i + 1] == '/' || chars[i + 1] == ' ' {
                    push_str(&mut result, home);
                    assert(result@ + expand_from(vars, hs, s, i + 1, status@) =~= before + (hs
                        + expand_from(vars, hs, s, i + 1, status@)));
                    i = i + 1;
                    continue;
                }
            }
            push_char(&mut result, chars[i]);
            assert(result@ + expand_from(vars, hs, s, i + 1, status@) =~= before + (seq![s[i as int]]
                + expand_from(vars, hs, s, i + 1, status@)));
            i = i + 1;
        }
        assert(result@ + expand_from(vars, hs, input@, i as int, status@) =~= result@);
        result
    }

    /// Parse and apply lines from a config file (`KEY=VALUE` per line, `#` comments,
    /// optional `export ` prefix, optional double quotes around the value).
    pub fn load_config(&mut self, content: &str)
        ensures
            (final(self).vars(), final(self).exported()) == apply_config(
                old(self).vars(),
                old(self).exported(),
                lines(content@),
                0,
            ),
    {
        let chars = chars_of(content);
        let ls = lines_of(chars.as_slice());
        let ghost lv = ls@.map_values(|l: Vec<char>| l@);
        let mut k: usize = 0;
        while k < ls.len()
            invariant
                lv == ls@.map_values(|l: Vec<char>| l@),
                lv == lines(content@),
                k <= ls@.len(),
                apply_config(old(self).vars(), old(self).exported(), lv, 0) == apply_config(
                    self.vars(),
                    self.exported(),
                    lv,
                    k as int,
                ),
            decreases ls@.len() - k,
        {
            match parse_config_line(ls[k].as_slice()) {
                None => {},
                Some((key, value, is_export)) => {
                    let key_s = string_of(key.as_slice());
                    let value_s = string_of(value.as_slice());
                    self.set(key_s.as_str(), value_s.as_str());
                    if is_export {
                        self.export(key_s.as_str());
                    }
                },
            }
            k = k + 1;
        }
    }
}

impl Default for Environment {
    fn default() -> (r: Self)
        ensures
            r.vars() == default_vars(),
            r.exported() == Set::<Seq<char>>::empty(),
    {
        Self::new()
    }
}

/// The variables of a fresh environment.
pub open spec fn default_vars() -> Map<Seq<char>, Seq<char>> {
    Map::<Seq<char>, Seq<char>>::empty().insert(key_home(), root_dir()).insert(
        seq!['U', 'S', 'E', 'R'],
        seq!['r', 'o', 'o', 't'],
    ).insert(seq!['H', 'O', 'S', 'T', 'N', 'A', 'M', 'E'], seq!['c', 'l', 'a', 'u', 'd', 'i', 'o']).insert(
        key_pwd(),
        root_dir(),
    ).insert(
        key_path(),
        seq!['/', 'b', 'i', 'n', ':', '/', 'u', 's', 'r', '/', 'b', 'i', 'n'],
    ).insert(
        seq!['S', 'H', 'E', 'L', 'L'],
        seq!['/', 'b', 'i', 'n', '/', 's', 'h', 'e', 'l', 'l', '-', 'n', 'o', 's', 't', 'd'],
    ).insert(
        seq!['T', 'E', 'R', 'M'],
        seq!['c', 'l', 'a', 'u', 'd', 'i', 'o', '-', 't', 'e', 'r', 'm'],
    ).insert(seq!['L', 'A', 'N', 'G'], seq!['e', 'n', '_', 'U', 'S', '.', 'U', 'T', 'F', '-', '8'])
}

/// Whether `c` may appear in a `$NAME` reference.
pub open spec fn is_name_char(c: char) -> bool {
    char_is_alphanumeric(c) || c == '_'
}

/// End of the run of name characters starting at `i`.
pub open spec fn name_end(s: Seq<char>, i: int) -> int
    decreases s.len() - i,
{
    if 0 <= i < s.len() && is_name_char(s[i]) {
        name_end(s, i + 1)
    } else {
        i
    }
}

/// Bounds of `name_end`.
pub proof fn lemma_name_end(s: Seq<char>, i: int)
    requires
        0 <= i <= s.len(),
    ensures
        i <= name_end(s, i) <= s.len(),
    decreases s.len() - i,
{
    if i < s.len() && is_name_char(s[i]) {
        lemma_name_end(s, i + 1);
    }
}

/// The value of `name`, or nothing when it is unset.
pub open spec fn lookup_or_empty(vars: Map<Seq<char>, Seq<char>>, name: Seq<char>) -> Seq<char> {
    get_or(vars, name, Seq::empty())
}

/// The expansion of `s[i..]` (see `Environment::expand_vars`): `${NAME}` with a
/// closing brace and `$NAME` with a non-empty name become the variable's value,
/// `$?` becomes `status`, and `~` at the start of a word (after a space or `=`)
/// followed by `/`, a space or the end becomes `home`.
pub open spec fn expand_from(vars: Map<Seq<char>, Seq<char>>, home: Seq<char>, s: Seq<char>, i: int, status: Seq<char>) -> Seq<
    char,
>
    decreases s.len() - i,
{
    if i < 0 || i >= s.len() {
        Seq::empty()
    } else if s[i] == '$' && i + 1 < s.len() && s[i + 1] == '{' && find_char_from(s, i + 2, '}')
        < s.len() {
        let close = find_char_from(s, i + 2, '}');
        proof {
            lemma_find_char_from(s, i + 2, '}');
        }
        lookup_or_empty(vars, s.subrange(i + 2, close)) + expand_from(vars, home, s, close + 1, status)
    } else if s[i] == '$' && i + 1 < s.len() && s[i + 1] == '?' {
        status + expand_from(vars, home, s, i + 2, status)
    } else if s[i] == '$' && i + 1 < s.len() && s[i + 1] != '{' && name_end(s, i + 1) > i + 1 {
        proof {
            lemma_name_end(s, i + 1);
        }
        lookup_or_empty(vars, s.subrange(i + 1, name_end(s, i + 1))) + expand_from(vars, home, s, name_end(s, i + 1), status)
    } else if s[i] == '~' && (i == 0 || s[i - 1] == ' ' || s[i - 1] == '=') && (i + 1 >= s.len()
        || s[i + 1] == '/' || s[i + 1] == ' ') {
        home + expand_from(vars, home, s, i + 1, status)
    } else {
        seq![s[i]] + expand_from(vars, home, s, i + 1, status)
    }
}

/// `s` without one pair of surrounding double quotes.
pub open spec fn strip_quotes(s: Seq<char>) -> Seq<char> {
    if s.len() >= 2 && s[0] == '"' && s.last() == '"' {
        s.subrange(1, s.len() - 1)
    } else {
        s
    }
}

/// The text `export `.
pub open spec fn export_prefix() -> Seq<char> {
    seq!['e', 'x', 'p', 'o', 'r', 't', ' ']
}

/// What one configuration line sets: `(name, value, exported)`, or nothing for
/// blank lines, `#` comments and lines without `=`.
pub open spec fn config_line(line: Seq<char>) -> Option<(Seq<char>, Seq<char>, bool)> {
    let t = trim(line);
    if t.len() == 0 || t[0] == '#' {
        None
    } else {
        let is_export = starts_with(t, export_prefix());
        let a = if is_export {
            trim(t.skip(7))
        } else {
            t
        };
        let eq = find_char_from(a, 0, '=');
        if eq >= a.len() {
            None
        } else {
            Some((trim(a.take(eq)), strip_quotes(trim(a.skip(eq + 1))), is_export))
        }
    }
}

/// Applies the configuration lines `ls[i..]` to the variables and exported names.
pub open spec fn apply_config(
    vars: Map<Seq<char>, Seq<char>>,
    exported: Set<Seq<char>>,
    ls: Seq<Seq<char>>,
    i: int,
) -> (Map<Seq<char>, Seq<char>>, Set<Seq<char>>)
    decreases ls.len() - i,
{
    if i < 0 || i >= ls.len() {
        (vars, exported)
    } else {
        match config_line(ls[i]) {
            None => apply_config(vars, exported, ls, i + 1),
            Some((k, v, x)) => apply_config(
                vars.insert(k, v),
                if x {
                    exported.insert(k)
                } else {
                    exported
                },
                ls,
                i + 1,
            ),
        }
    }
}

/// Reads one configuration line.
fn parse_config_line(line: &[char]) -> (r: Option<(Vec<char>, Vec<char>, bool)>)
    ensures
        r matches Some((k, v, x)) ==> config_line(line@) == Some((k@, v@, x)),
        r is None ==> config_line(line@) is None,
{
    let t = trim_chars(line);
    if t.len() == 0 || t[0] == '#' {
        return None;
    }
    let export_word: [char; 7] = ['e', 'x', 'p', 'o', 'r', 't', ' '];
    let is_export = crate::text::starts_with_exec(t.as_slice(), export_word.as_slice());
    proof {
        assert(export_word@ =~= export_prefix());
    }
    let a = if is_export {
        let mut rest: Vec<char> = Vec::new();
        let mut k: usize = 7;
        while k < t.len()
            invariant
                7 <= k <= t@.len(),
                rest@ == t@.subrange(7, k as int),
            decreases t@.len() - k,
        {
            rest.push(t[k]);
            k = k + 1;
        }
        assert(rest@ =~= t@.skip(7));
        trim_chars(rest.as_slice())
    } else {
        t
    };
    let eq = crate::text::find_char_exec(a.as_slice(), 0, '=');
    if eq >= a.len() {
        return None;
    }
    let mut before: Vec<char> = Vec::new();
    let mut k: usize = 0;
    while k < eq
        invariant
            eq < a@.len(),
            k <= eq,
            before@ == a@.take(k as int),
        decreases eq - k,
    {
        before.push(a[k]);
        k = k + 1;
        assert(a@.take(k as int) =~= a@.take(k - 1 as int).push(a@[k - 1]));
    }
    let mut after: Vec<char> = Vec::new();
    let mut k: usize = eq + 1;
    while k < a.len()
        invariant
            eq < a@.len(),
            eq + 1 <= k <= a@.len(),
            after@ == a@.subrange(eq + 1, k as int),
        decreases a@.len() - k,
    {
        after.push(a[k]);
        k = k + 1;
    }
    assert(after@ =~= a@.skip(eq + 1));
    let key = trim_chars(before.as_slice());
    let v = trim_chars(after.as_slice());
    let value = if v.len() >= 2 && v[0] == '"' && v[v.len() - 1] == '"' {
        let mut inner: Vec<char> = Vec::new();
        let mut k: usize = 1;
        while k < v.len() - 1
            invariant
                v@.len() >= 2,
                1 <= k <= v@.len() - 1,
                inner@ == v@.subrange(1, k as int),
            decreases v@.len() - k,
        {
            inner.push(v[k]);
            k = k + 1;
        }
        inner
    } else {
        v
    };
    Some((key, value, is_export))
}

/// Setting `key` to `value` and reading `key` back gives `value`; every other
/// variable keeps whatever it had.
pub proof fn law_get_after_set(vars: Map<Seq<char>, Seq<char>>, key: Seq<char>, value: Seq<char>, other: Seq<char>)
    requires
        other != key,
    ensures
        vars.insert(key, value).contains_key(key),
        vars.insert(key, value)[key] == value,
        vars.insert(key, value).contains_key(other) == vars.contains_key(other),
        vars.contains_key(other) ==> vars.insert(key, value)[other] == vars[other],
{
}

/// After unsetting `key`, reading it finds nothing; every other variable
/// keeps whatever it had.
pub proof fn law_get_after_unset(vars: Map<Seq<char>, Seq<char>>, key: Seq<char>, other: Seq<char>)
    requires
        other != key,
    ensures
        !vars.remove(key).contains_key(key),
        vars.remove(key).contains_key(other) == vars.contains_key(other),
        vars.contains_key(other) ==> vars.remove(key)[other] == vars[other],
{
}

/// Text without `$` and `~` expands to itself, whatever the variables.
pub proof fn law_expand_plain_text(vars: Map<Seq<char>, Seq<char>>, home: Seq<char>, s: Seq<char>, status: Seq<char>)
    requires
        !s.contains('$'),
        !s.contains('~'),
    ensures
        expand_from(vars, home, s, 0, status) == s,
{
    lemma_expand_plain_from(vars, home, s, 0, status);
    assert(s.subrange(0, s.len() as int) =~= s);
}

/// A `~` that stands as a word of its own (at the start or after a space or
/// `=`, and followed by `/`, a space or the end), in text with no other `$`
/// or `~`, becomes the home directory; the rest stays as written.
pub proof fn law_tilde_expands_to_home(
    vars: Map<Seq<char>, Seq<char>>,
    home: Seq<char>,
    a: Seq<char>,
    b: Seq<char>,
    status: Seq<char>,
)
    requires
        !a.contains('$'),
        !a.contains('~'),
        !b.contains('$'),
        !b.contains('~'),
        a.len() == 0 || a.last() == ' ' || a.last() == '=',
        b.len() == 0 || b[0] == '/' || b[0] == ' ',
    ensures
        expand_from(vars, home, a + seq!['~'] + b, 0, status) == a + home + b,
{
    let s = a + seq!['~'] + b;
    let n = a.len() as int;
    assert forall|k: int| 0 <= k < n implies #[trigger] s[k] != '$' && s[k] != '~' by {
        assert(s[k] == a[k]);
        if a[k] == '$' || a[k] == '~' {
            assert(a.contains(a[k]));
        }
    }
    assert forall|k: int| n + 1 <= k < s.len() implies #[trigger] s[k] != '$' && s[k] != '~' by {
        assert(s[k] == b[k - n - 1]);
        if b[k - n - 1] == '$' || b[k - n - 1] == '~' {
            assert(b.contains(b[k - n - 1]));
        }
    }
    lemma_expand_plain_segment(vars, home, s, 0, n, status);
    lemma_expand_plain_segment(vars, home, s, n + 1, s.len() as int, status);
    assert(s[n] == '~');
    if n > 0 {
        assert(s[n - 1] == a.last());
    }
    if n + 1 < s.len() {
        assert(s[n + 1] == b[0]);
    }
    assert(expand_from(vars, home, s, s.len() as int, status) =~= Seq::<char>::empty());
    assert(s.subrange(0, n) =~= a);
    assert(s.subrange(n + 1, s.len() as int) =~= b);
    assert(expand_from(vars, home, s, n, status) == home + expand_from(vars, home, s, n + 1, status));
    assert(a + home + b =~= a + (home + (b + Seq::<char>::empty())));
}

/// Text from `i` to `j` without `$` and `~` expands to itself, followed by
/// what the text from `j` expands to.
proof fn lemma_expand_plain_segment(
    vars: Map<Seq<char>, Seq<char>>,
    home: Seq<char>,
    s: Seq<char>,
    i: int,
    j: int,
    status: Seq<char>,
)
    requires
        0 <= i <= j <= s.len(),
        forall|k: int| i <= k < j ==> #[trigger] s[k] != '$' && s[k] != '~',
    ensures
        expand_from(vars, home, s, i, status) == s.subrange(i, j) + expand_from(vars, home, s, j, status),
    decreases j - i,
{
    if i < j {
        assert(s[i] != '$' && s[i] != '~');
        lemma_expand_plain_segment(vars, home, s, i + 1, j, status);
        assert(s.subrange(i, j) =~= seq![s[i]] + s.subrange(i + 1, j));
    } else {
        assert(s.subrange(i, j) =~= Seq::<char>::empty());
    }
}

/// From position `i`, text without `$` and `~` expands to the rest of itself.
proof fn lemma_expand_plain_from(vars: Map<Seq<char>, Seq<char>>, home: Seq<char>, s: Seq<char>, i: int, status: Seq<char>)
    requires
        0 <= i <= s.len(),
        !s.contains('$'),
        !s.contains('~'),
    ensures
        expand_from(vars, home, s, i, status) == s.subrange(i, s.len() as int),
    decreases s.len() - i,
{
    if i < s.len() {
        assert(s[i] != '$' && s[i] != '~') by {
            if s[i] == '$' || s[i] == '~' {
                assert(s.contains(s[i]));
            }
        }
        lemma_expand_plain_from(vars, home, s, i + 1, status);
        assert(s.subrange(i, s.len() as int) =~= seq![s[i]] + s.subrange(i + 1, s.len() as int));
    } else {
        assert(s.subrange(i, s.len() as int) =~= Seq::<char>::empty());
    }
}

} // verus!
