//! The expansion engine: turns parsed shell strings into concrete
//! argument strings against an environment.
//!
//! A string without glob pieces expands to exactly one string: the
//! concatenation of its pieces, with each variable replaced by its value,
//! or by nothing when it is unset. A string with a glob piece is first
//! rendered the same way — the glob text kept verbatim — and the whole
//! rendered string is then matched against the filesystem; it expands to
//! the matched paths, none for a pattern that matches nothing or is
//! malformed.
use vstd::prelude::*;

use crate::environment::Environment;
use crate::strings::Piece;
use crate::strings::PieceModel;
use crate::strings::ShellString;

verus! {

/// What one piece renders to: fixed and glob text verbatim, a variable's
/// value from the environment, or nothing when it is unset.
pub open spec fn piece_text(p: PieceModel, vars: Map<Seq<char>, Seq<char>>) -> Seq<char> {
    match p {
        PieceModel::Fixed(t) => t,
        PieceModel::Glob(t) => t,
        PieceModel::Variable(n) => if vars.contains_key(n) {
            vars[n]
        } else {
            Seq::empty()
        },
    }
}

/// What a whole shell string renders to: its pieces' text, in order.
pub open spec fn rendered(ps: Seq<PieceModel>, vars: Map<Seq<char>, Seq<char>>) -> Seq<char>
    decreases ps.len(),
{
    if ps.len() == 0 {
        Seq::empty()
    } else {
        rendered(ps.drop_last(), vars) + piece_text(ps.last(), vars)
    }
}

/// Whether any piece is a glob.
pub open spec fn model_has_glob(ps: Seq<PieceModel>) -> bool {
    exists|i: int| 0 <= i < ps.len() && ps[i] is Glob
}

/// The expansion of a list of shell strings, position by position: a
/// string without globs contributes its rendering, one with globs
/// contributes that position's filesystem matches, spliced in place.
pub open spec fn spliced(
    strs: Seq<Seq<PieceModel>>,
    vars: Map<Seq<char>, Seq<char>>,
    globs: Seq<Seq<Seq<char>>>,
) -> Seq<Seq<char>>
    recommends
        globs.len() == strs.len(),
    decreases strs.len(),
{
    if strs.len() == 0 {
        Seq::empty()
    } else {
        spliced(strs.drop_last(), vars, globs.drop_last()) + (if model_has_glob(strs.last()) {
            globs.last()
        } else {
            seq![rendered(strs.last(), vars)]
        })
    }
}

/// Returns whether or not there is a glob piece in this `ShellString`.
pub fn has_glob(string: &ShellString) -> (r: bool)
    ensures
        r == model_has_glob(string@),
{
    let pieces = string.iter();
    let n = pieces.len();
    let mut i: usize = 0;
    while i < n
        invariant
            i <= n,
            n == pieces.len(),
            pieces.deep_view() == string@,
            forall|m: int| 0 <= m < i ==> !(string@[m] is Glob),
        decreases n - i,
    {
        match &pieces[i] {
            Piece::Glob(_) => {
                proof {
                    assert(string@[i as int] is Glob);
                }
                return true;
            },
            _ => {},
        }
        i = i + 1;
    }
    false
}

/// Converts this piece into a `String` with a given environment. A
/// variable that is not in the environment renders to the empty string.
fn piece_to_string(piece: &Piece, env: &Environment) -> (r: String)
    ensures
        r@ == piece_text(piece@, env@.vars),
{
    match piece {
        Piece::Fixed(s) => s.clone(),
        Piece::Glob(s) => s.clone(),
        Piece::Variable(name) => match env.get(name) {
            Some(value) => value,
            None => String::new(),
        },
    }
}

/// Converts this shell string into a regular string: the renderings of
/// its pieces, concatenated in order. Glob text is kept verbatim.
pub fn shellstring_to_string(string: &ShellString, env: &Environment) -> (r: String)
    ensures
        r@ == rendered(string@, env@.vars),
{
    let pieces = string.iter();
    let n = pieces.len();
    let mut acc = String::new();
    let mut i: usize = 0;
    while i < n
        invariant
            i <= n,
            n == pieces.len(),
            pieces.deep_view() == string@,
            acc@ == rendered(string@.subrange(0, i as int), env@.vars),
        decreases n - i,
    {
        let text = piece_to_string(&pieces[i], env);
        acc.append(text.as_str());
        proof {
            let pre = string@.subrange(0, i + 1 as int);
            assert(pre.drop_last() =~= string@.subrange(0, i as int));
            assert(pre.last() == string@[i as int]);
        }
        i = i + 1;
    }
    proof {
        assert(string@.subrange(0, n as int) =~= string@);
    }
    acc
}

/// The components of a path or pattern text, between `/` separators,
/// gathered from position `i` with `cur` the component being read and
/// `acc` the components finished.
pub open spec fn components_rec(t: Seq<char>, i: int, cur: Seq<char>, acc: Seq<Seq<char>>) -> Seq<
    Seq<char>,
>
    decreases t.len() - i,
    when 0 <= i <= t.len()
{
    if i >= t.len() {
        acc.push(cur)
    } else if t[i] == '/' {
        components_rec(t, i + 1, Seq::empty(), acc.push(cur))
    } else {
        components_rec(t, i + 1, cur.push(t[i]), acc)
    }
}

/// The `/`-separated components of a path or pattern text.
pub open spec fn text_components(t: Seq<char>) -> Seq<Seq<char>> {
    components_rec(t, 0, Seq::empty(), Seq::empty())
}

/// Whether one component of a matched path obeys the literal-dot rule
/// for `pattern`: a component that begins with a dot must be `.`, `..`,
/// or a component the pattern spells out verbatim — a wildcard never
/// matches a hidden name.
pub open spec fn dot_component_ok(c: Seq<char>, pattern: Seq<char>) -> bool {
    c.len() == 0 || c[0] != '.' || c == seq!['.'] || c == seq!['.', '.'] || text_components(
        pattern,
    ).contains(c)
}

/// Whether a whole matched path obeys the literal-dot rule for `pattern`.
pub open spec fn obeys_literal_dots(p: Seq<char>, pattern: Seq<char>) -> bool {
    forall|i: int|
        0 <= i < text_components(p).len() ==> dot_component_ok(
            #[trigger] text_components(p)[i],
            pattern,
        )
}

/// The matched paths that obey the literal-dot rule, in their original
/// order.
pub open spec fn literal_dot_kept(paths: Seq<Seq<char>>, pattern: Seq<char>) -> Seq<Seq<char>>
    decreases paths.len(),
{
    if paths.len() == 0 {
        Seq::empty()
    } else {
        literal_dot_kept(paths.drop_last(), pattern) + (if obeys_literal_dots(
            paths.last(),
            pattern,
        ) {
            seq![paths.last()]
        } else {
            Seq::<Seq<char>>::empty()
        })
    }
}

/// Whether glob's pattern language accepts `p`: a property of the
/// pattern text alone.
pub uninterp spec fn glob_pattern_ok(p: Seq<char>) -> bool;

/// The filesystem's candidates for a glob pattern, as strings.
///
/// Relies on `glob::glob_with`: the pattern is matched against the
/// filesystem case-sensitively with separators required literally, and a
/// pattern its parser rejects yields nothing. The enumeration runs
/// without the literal-leading-dot option, whose handling of a directory
/// entry that is not valid text panics; the caller reimposes that rule.
/// An unreadable path and a path that is not valid text yield nothing;
/// what else comes back depends on what is on disk, so nothing more is
/// promised of it.
#[verifier::external_body]
fn glob_enumerate(pattern: &String) -> (r: Vec<String>)
    ensures
        !glob_pattern_ok(pattern@) ==> r@.len() == 0,
{
    let options = glob::MatchOptions {
        case_sensitive: true,
        require_literal_separator: true,
        require_literal_leading_dot: false,
    };
    match glob::glob_with(pattern.as_str(), options) {
        Ok(paths) => paths
            .filter_map(|path| path.ok())
            .filter_map(|path| path.into_os_string().into_string().ok())
            .collect(),
        Err(_) => Vec::new(),
    }
}

/// The `/`-separated components of `s`.
fn split_components(s: &String) -> (r: Vec<String>)
    ensures
        r.deep_view() == text_components(s@),
{
    let v = crate::parser::str_chars(s.as_str());
    let n = v.len();
    let mut acc: Vec<String> = Vec::new();
    let mut cur = String::new();
    let mut i: usize = 0;
    proof {
        assert(acc.deep_view() =~= Seq::<Seq<char>>::empty());
        assert(cur@ =~= Seq::<char>::empty());
    }
    while i < n
        invariant
            i <= n,
            n == v@.len(),
            v@ == s@,
            components_rec(s@, i as int, cur@, acc.deep_view()) == text_components(s@),
        decreases n - i,
    {
        if v[i] == '/' {
            let ghost acc0 = acc.deep_view();
            acc.push(cur);
            proof {
                assert(acc.deep_view() =~= acc0.push(cur@));
            }
            cur = String::new();
        } else {
            crate::parser::push_char(&mut cur, v[i]);
        }
        i = i + 1;
    }
    let ghost acc0 = acc.deep_view();
    acc.push(cur);
    proof {
        assert(acc.deep_view() =~= acc0.push(cur@));
    }
    acc
}

/// Whether any component of the list holds exactly the text of `c`.
fn contains_component(list: &Vec<String>, c: &String) -> (r: bool)
    ensures
        r == list.deep_view().contains(c@),
{
    let n = list.len();
    let mut i: usize = 0;
    while i < n
        invariant
            i <= n,
            n == list.len(),
            forall|m: int| 0 <= m < i ==> #[trigger] list.deep_view()[m] != c@,
        decreases n - i,
    {
        if list[i].eq(c) {
            proof {
                assert(list.deep_view()[i as int] == c@);
            }
            return true;
        }
        i = i + 1;
    }
    proof {
        assert(!list.deep_view().contains(c@));
    }
    false
}

/// Whether `path` obeys the literal-dot rule: each of its hidden
/// components is `.`, `..`, or spelled out in the pattern.
fn path_obeys_literal_dots(path: &String, pattern: &String, pattern_components: &Vec<String>) -> (r:
    bool)
    requires
        pattern_components.deep_view() == text_components(pattern@),
    ensures
        r == obeys_literal_dots(path@, pattern@),
{
    let dot = String::from_str(".");
    let dotdot = String::from_str("..");
    proof {
        reveal_strlit(".");
        reveal_strlit("..");
        assert(dot@ =~= seq!['.']);
        assert(dotdot@ =~= seq!['.', '.']);
    }
    let comps = split_components(path);
    let n = comps.len();
    let mut i: usize = 0;
    while i < n
        invariant
            i <= n,
            n == comps.len(),
            comps.deep_view() == text_components(path@),
            pattern_components.deep_view() == text_components(pattern@),
            dot@ == seq!['.'],
            dotdot@ == seq!['.', '.'],
            forall|m: int|
                0 <= m < i ==> dot_component_ok(#[trigger] text_components(path@)[m], pattern@),
        decreases n - i,
    {
        let c = &comps[i];
        let hidden = !c.as_str().is_empty() && c.as_str().get_char(0) == '.';
        if hidden {
            if !c.eq(&dot) && !c.eq(&dotdot) && !contains_component(pattern_components, c) {
                proof {
                    assert(!dot_component_ok(text_components(path@)[i as int], pattern@));
                }
                return false;
            }
        }
        proof {
            assert(dot_component_ok(text_components(path@)[i as int], pattern@));
        }
        i = i + 1;
    }
    true
}

/// The enumerated paths that obey the literal-dot rule, in order.
fn literal_dot_filter(paths: Vec<String>, pattern: &String) -> (r: Vec<String>)
    ensures
        r.deep_view() == literal_dot_kept(paths.deep_view(), pattern@),
{
    let pattern_components = split_components(pattern);
    let n = paths.len();
    let mut out: Vec<String> = Vec::new();
    let mut i: usize = 0;
    proof {
        assert(out.deep_view() =~= literal_dot_kept(paths.deep_view().subrange(0, 0), pattern@));
    }
    while i < n
        invariant
            i <= n,
            n == paths.len(),
            pattern_components.deep_view() == text_components(pattern@),
            out.deep_view() == literal_dot_kept(paths.deep_view().subrange(0, i as int), pattern@),
        decreases n - i,
    {
        let ghost out0 = out.deep_view();
        if path_obeys_literal_dots(&paths[i], pattern, &pattern_components) {
            let kept = paths[i].clone();
            out.push(kept);
            proof {
                assert(out.deep_view() =~= out0.push(paths.deep_view()[i as int]));
            }
        }
        proof {
            let pre = paths.deep_view().subrange(0, i + 1 as int);
            assert(pre.drop_last() =~= paths.deep_view().subrange(0, i as int));
            assert(pre.last() == paths.deep_view()[i as int]);
            assert(out.deep_view() =~= literal_dot_kept(pre, pattern@));
        }
        i = i + 1;
    }
    proof {
        assert(paths.deep_view().subrange(0, n as int) =~= paths.deep_view());
    }
    out
}

/// The filesystem's matches for a glob pattern: the enumerated
/// candidates that obey the literal-dot rule. A pattern the glob
/// language rejects yields nothing.
fn glob_matches(pattern: &String) -> (r: Vec<String>)
    ensures
        !glob_pattern_ok(pattern@) ==> r@.len() == 0,
        exists|raw: Seq<Seq<char>>| r.deep_view() == literal_dot_kept(raw, pattern@),
{
    let raw = glob_enumerate(pattern);
    let r = literal_dot_filter(raw, pattern);
    proof {
        if !glob_pattern_ok(pattern@) {
            assert(raw.deep_view() =~= Seq::<Seq<char>>::empty());
            assert(literal_dot_kept(raw.deep_view(), pattern@) == Seq::<Seq<char>>::empty());
            assert(r.deep_view().len() == 0);
        }
    }
    r
}

/// Converts a list of `ShellString`s to a list of `String`s. Each string
/// without globs becomes exactly its rendering, in order; each string
/// with a glob piece is rendered — variables substituted first — and
/// handed whole to the filesystem matcher, whose matches take its
/// position. A position whose rendering is not a well-formed glob
/// pattern contributes nothing, and the other positions are unaffected.
pub fn to_string_vec(values: Vec<ShellString>, env: &Environment) -> (r: Vec<String>)
    ensures
        (exists|globs: Seq<Seq<Seq<char>>>|
            {
                &&& globs.len() == values.deep_view().len()
                &&& r.deep_view() == spliced(values.deep_view(), env@.vars, globs)
                &&& forall|k: int|
                    0 <= k < globs.len() && model_has_glob(values.deep_view()[k])
                        && !glob_pattern_ok(rendered(values.deep_view()[k], env@.vars))
                        ==> #[trigger] globs[k] == Seq::<Seq<char>>::empty()
            }),
{
    let n = values.len();
    let mut out: Vec<String> = Vec::new();
    let ghost mut globs: Seq<Seq<Seq<char>>> = Seq::empty();
    let mut i: usize = 0;
    proof {
        assert(out.deep_view() =~= spliced(
            values.deep_view().subrange(0, 0),
            env@.vars,
            globs,
        ));
    }
    while i < n
        invariant
            i <= n,
            n == values.len(),
            globs.len() == i as int,
            out.deep_view() == spliced(values.deep_view().subrange(0, i as int), env@.vars, globs),
            forall|k: int|
                0 <= k < i && model_has_glob(values.deep_view()[k]) && !glob_pattern_ok(
                    rendered(values.deep_view()[k], env@.vars),
                ) ==> #[trigger] globs[k] == Seq::<Seq<char>>::empty(),
        decreases n - i,
    {
        let ghost out0 = out.deep_view();
        let ghost globs0 = globs;
        let string = &values[i];
        if has_glob(string) {
            let pattern = shellstring_to_string(string, env);
            let mut matches = glob_matches(&pattern);
            proof {
                globs = globs.push(matches.deep_view());
                if !glob_pattern_ok(rendered(values.deep_view()[i as int], env@.vars)) {
                    assert(matches@.len() == 0);
                    assert(matches.deep_view() =~= Seq::<Seq<char>>::empty());
                }
                assert(forall|k: int| 0 <= k < i ==> #[trigger] globs[k] == globs0[k]);
            }
            let ghost matches0 = matches.deep_view();
            out.append(&mut matches);
            proof {
                assert(out.deep_view() =~= out0 + matches0);
            }
        } else {
            out.push(shellstring_to_string(string, env));
            proof {
                globs = globs.push(Seq::empty());
                assert(forall|k: int| 0 <= k < i ==> #[trigger] globs[k] == globs0[k]);
                assert(out.deep_view() =~= out0.push(rendered(string@, env@.vars)));
            }
        }
        proof {
            let pre = values.deep_view().subrange(0, i + 1 as int);
            assert(pre.drop_last() =~= values.deep_view().subrange(0, i as int));
            assert(pre.last() == values.deep_view()[i as int]);
            assert(globs.drop_last() =~= globs0);
            assert(out.deep_view() =~= spliced(pre, env@.vars, globs));
        }
        i = i + 1;
    }
    proof {
        assert(values.deep_view().subrange(0, n as int) =~= values.deep_view());
    }
    out
}

} // verus!
