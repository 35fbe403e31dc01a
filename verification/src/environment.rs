//! The environment in which the shell's commands run: variables, exported
//! variables, the working directory, the directory stack, and the `PATH`
//! entries.
use vstd::prelude::*;

verus! {

/// The mathematical model of an environment.
pub struct EnvironmentModel {
    pub vars: Map<Seq<char>, Seq<char>>,
    pub exported_vars: Map<Seq<char>, Seq<char>>,
    pub paths: Seq<Seq<char>>,
    pub working_directory: Seq<char>,
    pub directory_stack: Seq<Seq<char>>,
}

/// The map an association list denotes; an earlier pair hides a later one
/// with the same name.
pub open spec fn assoc_map(l: Seq<(Seq<char>, Seq<char>)>) -> Map<Seq<char>, Seq<char>>
    decreases l.len(),
{
    if l.len() == 0 {
        Map::empty()
    } else {
        assoc_map(l.skip(1)).insert(l[0].0, l[0].1)
    }
}

proof fn lemma_assoc_found(l: Seq<(Seq<char>, Seq<char>)>, k: Seq<char>, i: int)
    requires
        0 <= i < l.len(),
        l[i].0 == k,
        forall|m: int| 0 <= m < i ==> (#[trigger] l[m]).0 != k,
    ensures
        assoc_map(l).contains_key(k),
        assoc_map(l)[k] == l[i].1,
    decreases l.len(),
{
    if i > 0 {
        assert(forall|m: int| 0 <= m < i - 1 ==> (#[trigger] l.skip(1)[m]).0 != k);
        assert(l.skip(1)[i - 1] == l[i]);
        lemma_assoc_found(l.skip(1), k, i - 1);
    }
}

proof fn lemma_assoc_absent(l: Seq<(Seq<char>, Seq<char>)>, k: Seq<char>)
    requires
        forall|m: int| 0 <= m < l.len() ==> (#[trigger] l[m]).0 != k,
    ensures
        !assoc_map(l).contains_key(k),
    decreases l.len(),
{
    if l.len() > 0 {
        assert(forall|m: int| 0 <= m < l.skip(1).len() ==> (#[trigger] l.skip(1)[m]).0 != k);
        lemma_assoc_absent(l.skip(1), k);
    }
}

proof fn lemma_assoc_update(l: Seq<(Seq<char>, Seq<char>)>, k: Seq<char>, v: Seq<char>, i: int)
    requires
        0 <= i < l.len(),
        l[i].0 == k,
        forall|m: int| 0 <= m < i ==> (#[trigger] l[m]).0 != k,
    ensures
        assoc_map(l.update(i, (k, v))) == assoc_map(l).insert(k, v),
    decreases l.len(),
{
    let lu = l.update(i, (k, v));
    if i == 0 {
        assert(lu.skip(1) =~= l.skip(1));
        assert(assoc_map(lu) =~= assoc_map(l).insert(k, v));
    } else {
        assert(lu.skip(1) =~= l.skip(1).update(i - 1, (k, v)));
        assert(forall|m: int| 0 <= m < i - 1 ==> (#[trigger] l.skip(1)[m]).0 != k);
        assert(l.skip(1)[i - 1] == l[i]);
        lemma_assoc_update(l.skip(1), k, v, i - 1);
        assert(lu[0] == l[0]);
        assert(assoc_map(lu) =~= assoc_map(l).insert(k, v));
    }
}

proof fn lemma_assoc_push(l: Seq<(Seq<char>, Seq<char>)>, k: Seq<char>, v: Seq<char>)
    requires
        forall|m: int| 0 <= m < l.len() ==> (#[trigger] l[m]).0 != k,
    ensures
        assoc_map(l.push((k, v))) == assoc_map(l).insert(k, v),
    decreases l.len(),
{
    let lp = l.push((k, v));
    if l.len() == 0 {
        assert(lp.skip(1) =~= Seq::<(Seq<char>, Seq<char>)>::empty());
        assert(lp[0] == (k, v));
        assert(assoc_map(lp) == assoc_map(lp.skip(1)).insert(k, v));
        assert(assoc_map(lp) =~= assoc_map(l).insert(k, v));
    } else {
        assert(lp.skip(1) =~= l.skip(1).push((k, v)));
        assert(forall|m: int| 0 <= m < l.skip(1).len() ==> (#[trigger] l.skip(1)[m]).0 != k);
        lemma_assoc_push(l.skip(1), k, v);
        assert(lp[0] == l[0]);
        assert(l[0].0 != k);
        assert(assoc_map(lp) =~= assoc_map(l).insert(k, v));
    }
}

/// The value the association list holds for `name`, searching from the
/// front.
fn assoc_get(list: &Vec<(String, String)>, name: &String) -> (r: Option<String>)
    ensures
        match r {
            Some(value) => assoc_map(list.deep_view()).contains_key(name@) && value@ == assoc_map(
                list.deep_view(),
            )[name@],
            None => !assoc_map(list.deep_view()).contains_key(name@),
        },
{
    let n = list.len();
    let mut i: usize = 0;
    while i < n
        invariant
            i <= n,
            n == list.len(),
            forall|m: int| 0 <= m < i ==> (#[trigger] list.deep_view()[m]).0 != name@,
        decreases n - i,
    {
        if list[i].0.eq(name) {
            proof {
                lemma_assoc_found(list.deep_view(), name@, i as int);
            }
            return Some(list[i].1.clone());
        }
        i = i + 1;
    }
    proof {
        lemma_assoc_absent(list.deep_view(), name@);
    }
    None
}

/// Binds `name` to `value` in the association list: the first pair with
/// that name is replaced, or a new pair appended; the old value, if any,
/// comes back.
fn assoc_set(list: &mut Vec<(String, String)>, name: String, value: String) -> (r: Option<String>)
    ensures
        assoc_map(final(list).deep_view()) == assoc_map(old(list).deep_view()).insert(
            name@,
            value@,
        ),
        match r {
            Some(prev) => assoc_map(old(list).deep_view()).contains_key(name@) && prev@
                == assoc_map(old(list).deep_view())[name@],
            None => !assoc_map(old(list).deep_view()).contains_key(name@),
        },
{
    let n = list.len();
    let mut i: usize = 0;
    while i < n
        invariant
            i <= n,
            n == list.len(),
            list == old(list),
            forall|m: int| 0 <= m < i ==> (#[trigger] list.deep_view()[m]).0 != name@,
        decreases n - i,
    {
        if list[i].0.eq(&name) {
            proof {
                lemma_assoc_found(list.deep_view(), name@, i as int);
                lemma_assoc_update(list.deep_view(), name@, value@, i as int);
            }
            let prev = list[i].1.clone();
            list.set(i, (name, value));
            proof {
                assert(list.deep_view() =~= old(list).deep_view().update(
                    i as int,
                    (name@, value@),
                ));
            }
            return Some(prev);
        }
        i = i + 1;
    }
    proof {
        lemma_assoc_absent(list.deep_view(), name@);
        lemma_assoc_push(list.deep_view(), name@, value@);
    }
    list.push((name, value));
    proof {
        assert(list.deep_view() =~= old(list).deep_view().push((name@, value@)));
    }
    None
}

/// A pair-by-pair copy of the association list.
fn assoc_clone(list: &Vec<(String, String)>) -> (r: Vec<(String, String)>)
    ensures
        r.deep_view() == list.deep_view(),
{
    let n = list.len();
    let mut r: Vec<(String, String)> = Vec::new();
    let mut i: usize = 0;
    while i < n
        invariant
            i <= n,
            n == list.len(),
            r.deep_view() == list.deep_view().subrange(0, i as int),
        decreases n - i,
    {
        let name = list[i].0.clone();
        let value = list[i].1.clone();
        proof {
            assert((name, value).deep_view() == list.deep_view()[i as int]);
        }
        let ghost r0 = r@;
        let ghost rd0 = r.deep_view();
        proof {
            assert(r.deep_view().len() == rd0.len());
            assert(rd0.len() == i as int);
            assert(r@.len() == i as int);
        }
        r.push((name, value));
        proof {
            assert(r@.len() == i + 1);
            assert(forall|m: int| 0 <= m < i ==> r@[m] == r0[m]);
            assert(r.deep_view().len() == i + 1);
            assert(r.deep_view()[i as int] == list.deep_view()[i as int]);
            assert(forall|m: int| 0 <= m < i ==> r.deep_view()[m] == rd0[m]);
            assert(r.deep_view() =~= list.deep_view().subrange(0, i + 1 as int));
        }
        i = i + 1;
    }
    proof {
        assert(r.deep_view() =~= list.deep_view());
    }
    r
}

/// The segments of `t` between `:` separators, gathered from position `i`
/// with `cur` the segment being read and `acc` the segments finished.
pub open spec fn split_colon_rec(t: Seq<char>, i: int, cur: Seq<char>, acc: Seq<Seq<char>>) -> Seq<
    Seq<char>,
>
    decreases t.len() - i,
    when 0 <= i <= t.len()
{
    if i >= t.len() {
        acc.push(cur)
    } else if t[i] == ':' {
        split_colon_rec(t, i + 1, Seq::empty(), acc.push(cur))
    } else {
        split_colon_rec(t, i + 1, cur.push(t[i]), acc)
    }
}

/// The `:`-separated segments of `t`: the shape of a `PATH` value.
pub open spec fn split_colon_model(t: Seq<char>) -> Seq<Seq<char>> {
    split_colon_rec(t, 0, Seq::empty(), Seq::empty())
}

/// Supports executing commands within the context of a specific
/// environment.
#[derive(Debug)]
pub struct Environment {
    paths: Vec<String>,
    working_directory: String,
    directory_stack: Vec<String>,
    vars: Vec<(String, String)>,
    exported_vars: Vec<(String, String)>,
}

impl View for Environment {
    type V = EnvironmentModel;

    closed spec fn view(&self) -> EnvironmentModel {
        EnvironmentModel {
            vars: assoc_map(self.vars.deep_view()),
            exported_vars: assoc_map(self.exported_vars.deep_view()),
            paths: self.paths.deep_view(),
            working_directory: self.working_directory@,
            directory_stack: self.directory_stack.deep_view(),
        }
    }
}

impl Environment {
    /// Creates a new environment holding the given variables, all of them
    /// exported, with the given working directory and an empty directory
    /// stack. The `PATH` entries are the `:`-separated segments of the
    /// `PATH` variable, none when it is absent.
    pub fn new(vars: Vec<(String, String)>, working_directory: String) -> (r: Environment)
        ensures
            r@.vars == assoc_map(vars.deep_view()),
            r@.exported_vars == assoc_map(vars.deep_view()),
            r@.paths == (if assoc_map(vars.deep_view()).contains_key("PATH"@) {
                split_colon_model(assoc_map(vars.deep_view())["PATH"@])
            } else {
                Seq::<Seq<char>>::empty()
            }),
            r@.working_directory == working_directory@,
            r@.directory_stack == Seq::<Seq<char>>::empty(),
    {
        let path_value = assoc_get(&vars, &String::from_str("PATH"));
        let paths = match path_value {
            Some(value) => split_colon(&value),
            None => Vec::new(),
        };
        let exported_vars = assoc_clone(&vars);
        let r = Environment {
            paths,
            working_directory,
            directory_stack: Vec::new(),
            vars,
            exported_vars,
        };
        proof {
            assert(r@.paths =~= (if assoc_map(r.vars.deep_view()).contains_key("PATH"@) {
                split_colon_model(assoc_map(r.vars.deep_view())["PATH"@])
            } else {
                Seq::<Seq<char>>::empty()
            }));
            assert(r@.directory_stack =~= Seq::<Seq<char>>::empty());
        }
        r
    }

    /// Sets the current working directory, and the `PWD` variable with it.
    pub fn set_working_directory(&mut self, path: String)
        ensures
            final(self)@.working_directory == path@,
            final(self)@.vars == old(self)@.vars.insert("PWD"@, path@),
            final(self)@.exported_vars == old(self)@.exported_vars,
            final(self)@.paths == old(self)@.paths,
            final(self)@.directory_stack == old(self)@.directory_stack,
    {
        let _ = assoc_set(&mut self.vars, String::from_str("PWD"), path.clone());
        self.working_directory = path;
    }

    /// Returns the current working directory.
    pub fn working_directory(&self) -> (r: &String)
        ensures
            r@ == self@.working_directory,
    {
        &self.working_directory
    }

    /// Pushes a directory onto the directory stack.
    pub fn push_directory(&mut self, path: String)
        ensures
            final(self)@ == (EnvironmentModel {
                directory_stack: old(self)@.directory_stack.push(path@),
                ..old(self)@
            }),
    {
        self.directory_stack.push(path);
        proof {
            assert(self.directory_stack.deep_view() =~= old(
                self,
            ).directory_stack.deep_view().push(path@));
        }
    }

    /// Pops the top directory from the directory stack, if any.
    pub fn pop_directory(&mut self) -> (r: Option<String>)
        ensures
            old(self)@.directory_stack.len() == 0 ==> r is None && final(self)@ == old(self)@,
            old(self)@.directory_stack.len() > 0 ==> (r matches Some(d) && d@ == old(
                self,
            )@.directory_stack.last() && final(self)@ == (EnvironmentModel {
                directory_stack: old(self)@.directory_stack.drop_last(),
                ..old(self)@
            })),
    {
        let r = self.directory_stack.pop();
        proof {
            if old(self).directory_stack.len() > 0 {
                assert(self.directory_stack.deep_view() =~= old(
                    self,
                ).directory_stack.deep_view().drop_last());
            }
        }
        r
    }

    /// Returns the directory stack, bottom first.
    pub fn directory_stack(&self) -> (r: &Vec<String>)
        ensures
            r.deep_view() == self@.directory_stack,
    {
        &self.directory_stack
    }

    /// Returns the `PATH` entries.
    pub fn paths(&self) -> (r: &Vec<String>)
        ensures
            r.deep_view() == self@.paths,
    {
        &self.paths
    }

    /// Gets the value of a variable from this environment.
    pub fn get(&self, name: &String) -> (r: Option<String>)
        ensures
            match r {
                Some(value) => self@.vars.contains_key(name@) && value@ == self@.vars[name@],
                None => !self@.vars.contains_key(name@),
            },
    {
        assoc_get(&self.vars, name)
    }

    /// Sets a variable in the environment, returning the value it
    /// replaced, if any.
    pub fn set(&mut self, name: String, value: String) -> (r: Option<String>)
        ensures
            final(self)@ == (EnvironmentModel {
                vars: old(self)@.vars.insert(name@, value@),
                ..old(self)@
            }),
            match r {
                Some(prev) => old(self)@.vars.contains_key(name@) && prev@ == old(
                    self,
                )@.vars[name@],
                None => !old(self)@.vars.contains_key(name@),
            },
    {
        assoc_set(&mut self.vars, name, value)
    }

    /// Exports a variable: its current value, when it has one, will be
    /// part of the environment handed to subsequent commands. A name
    /// without a value is left alone.
    pub fn export(&mut self, name: String)
        ensures
            final(self)@ == (EnvironmentModel {
                exported_vars: if old(self)@.vars.contains_key(name@) {
                    old(self)@.exported_vars.insert(name@, old(self)@.vars[name@])
                } else {
                    old(self)@.exported_vars
                },
                ..old(self)@
            }),
    {
        match self.get(&name) {
            Some(value) => {
                let _ = assoc_set(&mut self.exported_vars, name, value);
            },
            None => {},
        }
    }

    /// The exported variables, as name and value pairs.
    pub fn exported_vars(&self) -> (r: Vec<(String, String)>)
        ensures
            assoc_map(r.deep_view()) == self@.exported_vars,
    {
        assoc_clone(&self.exported_vars)
    }

    /// An environment equal to this one in every part.
    pub fn duplicate(&self) -> (r: Environment)
        ensures
            r@ == self@,
    {
        let mut paths: Vec<String> = Vec::new();
        let mut i: usize = 0;
        while i < self.paths.len()
            invariant
                i <= self.paths.len(),
                paths.deep_view() == self.paths.deep_view().subrange(0, i as int),
            decreases self.paths.len() - i,
        {
            let entry = self.paths[i].clone();
            proof {
                assert(entry.deep_view() == self.paths.deep_view()[i as int]);
            }
            proof {
                assert(paths.deep_view().len() == i as int);
                assert(paths@.len() == i as int);
            }
            paths.push(entry);
            proof {
                assert(paths.deep_view() =~= self.paths.deep_view().subrange(0, i + 1 as int));
            }
            i = i + 1;
        }
        let mut directory_stack: Vec<String> = Vec::new();
        let mut j: usize = 0;
        while j < self.directory_stack.len()
            invariant
                j <= self.directory_stack.len(),
                directory_stack.deep_view() == self.directory_stack.deep_view().subrange(
                    0,
                    j as int,
                ),
            decreases self.directory_stack.len() - j,
        {
            let entry = self.directory_stack[j].clone();
            proof {
                assert(entry.deep_view() == self.directory_stack.deep_view()[j as int]);
            }
            proof {
                assert(directory_stack.deep_view().len() == j as int);
                assert(directory_stack@.len() == j as int);
            }
            directory_stack.push(entry);
            proof {
                assert(directory_stack.deep_view() =~= self.directory_stack.deep_view().subrange(
                    0,
                    j + 1 as int,
                ));
            }
            j = j + 1;
        }
        let r = Environment {
            paths,
            working_directory: self.working_directory.clone(),
            directory_stack,
            vars: assoc_clone(&self.vars),
            exported_vars: assoc_clone(&self.exported_vars),
        };
        proof {
            assert(paths.deep_view() =~= self.paths.deep_view());
            assert(directory_stack.deep_view() =~= self.directory_stack.deep_view());
        }
        r
    }
}

/// The `:`-separated segments of `s`.
fn split_colon(s: &String) -> (r: Vec<String>)
    ensures
        r.deep_view() == split_colon_model(s@),
{
    let v = crate::parser::str_chars(s.as_str());
    let n = v.len();
    let mut acc: Vec<String> = Vec::new();
    let mut cur = String::new();
    let mut i: usize = 0;
    proof {
        assert(acc.deep_view() =~= Seq::<Seq<char>>::empty());
        assert(cur@ =~= Seq::<char>::empty());
    }
    while i < n
        invariant
            i <= n,
            n == v@.len(),
            v@ == s@,
            split_colon_rec(s@, i as int, cur@, acc.deep_view()) == split_colon_model(s@),
        decreases n - i,
    {
        if v[i] == ':' {
            let ghost acc0 = acc.deep_view();
            acc.push(cur);
            proof {
                assert(acc.deep_view() =~= acc0.push(cur@));
            }
            cur = String::new();
        } else {
            crate::parser::push_char(&mut cur, v[i]);
        }
        i = i + 1;
    }
    let ghost acc0 = acc.deep_view();
    acc.push(cur);
    proof {
        assert(acc.deep_view() =~= acc0.push(cur@));
    }
    acc
}

} // verus!
