//! General laws of the parser and the expansion engine, proved once for
//! all inputs.
use vstd::prelude::*;

use crate::expand::model_has_glob;
use crate::expand::piece_text;
use crate::expand::rendered;
use crate::expand::spliced;
use crate::grammar::ParsedLineModel;
use crate::grammar::SetVariableModel;
use crate::grammar::is_digit_char;
use crate::grammar::is_path_char;
use crate::grammar::is_space_char;
use crate::grammar::is_var_char;
use crate::grammar::scan_path;
use crate::grammar::scan_space;
use crate::grammar::scan_var;
use crate::grammar::sp_escape_interp;
use crate::grammar::sp_fragment;
use crate::grammar::sp_interp_body;
use crate::grammar::sp_interp_string;
use crate::grammar::sp_parse_line;
use crate::grammar::sp_piece;
use crate::grammar::sp_piece_rest;
use crate::grammar::sp_set_variable;
use crate::grammar::sp_set_variables;
use crate::grammar::sp_uninterp_string;
use crate::grammar::sp_uq_body;
use crate::grammar::sp_var_name;
use crate::grammar::sp_vars_rest;
use crate::grammar::sp_command;
use crate::grammar::spec_parse;
use crate::strings::PieceModel;
use crate::strings::text_pieces;

verus! {

/// Whether `t` is a well-formed variable name: nonempty, of name
/// characters, not starting with a digit.
pub open spec fn valid_var_name(t: Seq<char>) -> bool {
    t.len() > 0 && (forall|i: int| 0 <= i < t.len() ==> is_var_char(t[i])) && !is_digit_char(t[0])
}

proof fn lemma_scan_var_exact(s: Seq<char>, i: int, j: int)
    requires
        0 <= i <= j <= s.len(),
        forall|k: int| i <= k < j ==> is_var_char(s[k]),
        j == s.len() || !is_var_char(s[j]),
    ensures
        scan_var(s, i) == j,
    decreases j - i,
{
    if i < j {
        lemma_scan_var_exact(s, i + 1, j);
    }
}

proof fn lemma_scan_path_exact(s: Seq<char>, i: int, j: int)
    requires
        0 <= i <= j <= s.len(),
        forall|k: int| i <= k < j ==> is_path_char(s[k]),
        j == s.len() || !is_path_char(s[j]),
    ensures
        scan_path(s, i) == j,
    decreases j - i,
{
    if i < j {
        lemma_scan_path_exact(s, i + 1, j);
    }
}

/// Law: a plain string — all pieces fixed text — renders the same in
/// every environment, and expanding an already-expanded plain string is
/// the identity: rendering the rendering changes nothing.
pub proof fn lemma_expand_plain_idempotent(
    ps: Seq<PieceModel>,
    vars1: Map<Seq<char>, Seq<char>>,
    vars2: Map<Seq<char>, Seq<char>>,
)
    requires
        forall|i: int| 0 <= i < ps.len() ==> ps[i] is Fixed,
    ensures
        rendered(ps, vars1) == rendered(ps, vars2),
        rendered(text_pieces(rendered(ps, vars1)), vars2) == rendered(ps, vars1),
    decreases ps.len(),
{
    if ps.len() > 0 {
        assert(forall|i: int| 0 <= i < ps.drop_last().len() ==> ps.drop_last()[i] is Fixed);
        lemma_expand_plain_idempotent(ps.drop_last(), vars1, vars2);
    }
    lemma_rendered_of_text(rendered(ps, vars1), vars2);
}

/// Rendering the pieces of a run of text gives back the text.
proof fn lemma_rendered_of_text(t: Seq<char>, vars: Map<Seq<char>, Seq<char>>)
    ensures
        rendered(text_pieces(t), vars) == t,
{
    if t.len() == 0 {
        assert(rendered(text_pieces(t), vars) =~= t);
    } else {
        let ps = text_pieces(t);
        assert(ps.drop_last() =~= Seq::<PieceModel>::empty());
        assert(rendered(ps.drop_last(), vars) == Seq::<char>::empty());
        assert(ps.last() == PieceModel::Fixed(t));
        assert(rendered(ps, vars) =~= t);
    }
}

/// Law: a list of shell strings without glob pieces expands to exactly
/// one string per position — its rendering — whatever the filesystem
/// holds.
pub proof fn lemma_expansion_without_globs(
    strs: Seq<Seq<PieceModel>>,
    vars: Map<Seq<char>, Seq<char>>,
    globs: Seq<Seq<Seq<char>>>,
)
    requires
        globs.len() == strs.len(),
        forall|i: int| 0 <= i < strs.len() ==> !model_has_glob(strs[i]),
    ensures
        spliced(strs, vars, globs) == Seq::new(strs.len(), |i: int| rendered(strs[i], vars)),
    decreases strs.len(),
{
    if strs.len() == 0 {
        assert(spliced(strs, vars, globs) =~= Seq::new(
            strs.len(),
            |i: int| rendered(strs[i], vars),
        ));
    } else {
        assert(forall|i: int|
            0 <= i < strs.drop_last().len() ==> !model_has_glob(strs.drop_last()[i]));
        lemma_expansion_without_globs(strs.drop_last(), vars, globs.drop_last());
        assert(!model_has_glob(strs.last()));
        assert(spliced(strs, vars, globs) =~= Seq::new(
            strs.len(),
            |i: int| rendered(strs[i], vars),
        ));
    }
}

/// Law: a variable reference to a name the environment does not hold
/// renders to the empty string — never an error — and the double-quoted
/// interpolation `"${name}"` parses to exactly that one variable piece.
pub proof fn lemma_missing_variable_empty(name: Seq<char>, vars: Map<Seq<char>, Seq<char>>)
    requires
        valid_var_name(name),
        !vars.contains_key(name),
    ensures
        ({
            let s = seq!['"', '$', '{'] + name + seq!['}', '"'];
            sp_interp_string(s, 0) == Some((s.len() as int, seq![PieceModel::Variable(name)]))
        }),
        rendered(seq![PieceModel::Variable(name)], vars) == Seq::<char>::empty(),
{
    let s = seq!['"', '$', '{'] + name + seq!['}', '"'];
    let n = name.len() as int;
    assert(s.len() == n + 5);
    assert(s[0] == '"' && s[1] == '$' && s[2] == '{');
    assert(s[n + 3] == '}' && s[n + 4] == '"');
    assert(forall|k: int| 0 <= k < n ==> s[3 + k] == name[k]);
    assert(forall|k: int| 3 <= k < n + 3 ==> is_var_char(s[k]));
    assert(!is_var_char('}'));
    lemma_scan_var_exact(s, 3, n + 3);
    assert(sp_var_name(s, 3) == Some((n + 3, s.subrange(3, n + 3))));
    assert(s.subrange(3, n + 3) =~= name);
    let acc1 = Seq::<PieceModel>::empty().push(PieceModel::Variable(name));
    assert(sp_interp_body(s, n + 4, Seq::empty(), acc1) == Some((n + 4, acc1)));
    assert(sp_interp_body(s, 1, Seq::empty(), Seq::empty()) == Some((n + 4, acc1)));
    assert(acc1 =~= seq![PieceModel::Variable(name)]);
    assert(sp_interp_string(s, 0) == Some((s.len() as int, acc1)));
    let vp = seq![PieceModel::Variable(name)];
    assert(vp.drop_last() =~= Seq::<PieceModel>::empty());
    assert(rendered(vp.drop_last(), vars) == Seq::<char>::empty());
    assert(vp.last() == PieceModel::Variable(name));
    assert(piece_text(vp.last(), vars) == Seq::<char>::empty());
    assert(rendered(vp, vars) =~= Seq::<char>::empty());
}

/// Law: inside a double-quoted string, `\n`, `\t`, `\r`, `\\`, `\"` and
/// `\'` each decode to their single-character meaning, and a backslash
/// before any other character is a parse error.
pub proof fn lemma_double_quote_escape(c: char)
    ensures
        sp_escape_interp('n') == Some('\n'),
        sp_escape_interp('t') == Some('\t'),
        sp_escape_interp('r') == Some('\r'),
        sp_escape_interp('\\') == Some('\\'),
        sp_escape_interp('"') == Some('"'),
        sp_escape_interp('\'') == Some('\''),
        ({
            let s = seq!['"', '\\', c, '"'];
            match sp_escape_interp(c) {
                Some(m) => sp_interp_string(s, 0) == Some(
                    (4int, seq![PieceModel::Fixed(seq![m])]),
                ),
                None => sp_interp_string(s, 0) is None,
            }
        }),
{
    let s = seq!['"', '\\', c, '"'];
    assert(s[0] == '"' && s[1] == '\\' && s[2] == c && s[3] == '"');
    match sp_escape_interp(c) {
        Some(m) => {
            let buf = Seq::<char>::empty().push(m);
            assert(sp_interp_body(s, 3, buf, Seq::empty()) == Some(
                (3int, Seq::<PieceModel>::empty().push(PieceModel::Fixed(buf))),
            ));
            assert(sp_interp_body(s, 1, Seq::empty(), Seq::empty()) == Some(
                (3int, Seq::<PieceModel>::empty().push(PieceModel::Fixed(buf))),
            ));
            assert(buf =~= seq![m]);
            assert(Seq::<PieceModel>::empty().push(PieceModel::Fixed(buf)) =~= seq![
                PieceModel::Fixed(seq![m]),
            ]);
        },
        None => {
            assert(sp_interp_body(s, 1, Seq::empty(), Seq::empty()) is None);
        },
    }
}

/// Law: wherever a backslash stands inside a double-quoted string, an
/// accepted escape decodes to its single character and the parse goes
/// on; any other character after the backslash fails the whole parse.
pub proof fn lemma_escape_decides_in_any_context(
    s: Seq<char>,
    i: int,
    buf: Seq<char>,
    acc: Seq<PieceModel>,
)
    requires
        0 <= i,
        i + 1 < s.len(),
        s[i] == '\\',
    ensures
        match sp_escape_interp(s[i + 1]) {
            Some(m) => sp_interp_body(s, i, buf, acc) == sp_interp_body(s, i + 2, buf.push(m), acc),
            None => sp_interp_body(s, i, buf, acc) is None,
        },
{
}

proof fn lemma_uq_body_plain(s: Seq<char>, i: int, buf: Seq<char>, j: int)
    requires
        0 <= i <= j < s.len(),
        s[j] == '\'',
        forall|k: int| i <= k < j ==> s[k] != '\\' && s[k] != '\'',
    ensures
        sp_uq_body(s, i, buf) == Some((j, buf + s.subrange(i, j))),
    decreases j - i,
{
    if i == j {
        assert(buf + s.subrange(i, j) =~= buf);
    } else {
        lemma_uq_body_plain(s, i + 1, buf.push(s[i]), j);
        assert(buf.push(s[i]) + s.subrange(i + 1, j) =~= buf + s.subrange(i, j));
    }
}

/// Law: single-quoted text without backslashes or quotes is taken
/// verbatim — parsing `'text'` gives exactly the fixed text, and
/// expanding it gives `text` back, with no escape processing.
pub proof fn lemma_single_quoted_verbatim(text: Seq<char>, vars: Map<Seq<char>, Seq<char>>)
    requires
        forall|i: int| 0 <= i < text.len() ==> text[i] != '\\' && text[i] != '\'',
    ensures
        ({
            let s = seq!['\''] + text + seq!['\''];
            sp_uninterp_string(s, 0) == Some((s.len() as int, text_pieces(text)))
        }),
        rendered(text_pieces(text), vars) == text,
{
    let s = seq!['\''] + text + seq!['\''];
    let n = text.len() as int;
    assert(s.len() == n + 2);
    assert(s[0] == '\'' && s[n + 1] == '\'');
    assert(forall|k: int| 0 <= k < n ==> s[1 + k] == text[k]);
    assert(forall|k: int| 1 <= k < n + 1 ==> s[k] != '\\' && s[k] != '\'');
    lemma_uq_body_plain(s, 1, Seq::empty(), n + 1);
    assert(Seq::<char>::empty() + s.subrange(1, n + 1) =~= text);
    assert(sp_uq_body(s, 1, Seq::empty()) == Some((n + 1, text)));
    lemma_rendered_of_text(text, vars);
}

/// Law: a line `name=value`, with a well-formed name and a value of
/// plain path characters, parses to exactly one assignment whose value
/// is the fixed text `value`, and expanding that value in any
/// environment gives the literal `value` back.
pub proof fn lemma_assignment_round_trip(
    name: Seq<char>,
    value: Seq<char>,
    vars: Map<Seq<char>, Seq<char>>,
)
    requires
        valid_var_name(name),
        forall|i: int| 0 <= i < value.len() ==> is_path_char(value[i]),
        value.len() > 0 ==> value[0] != '~',
    ensures
        spec_parse(name + seq!['='] + value) == Some(
            ParsedLineModel::SetVariables(
                seq![SetVariableModel { name, value: text_pieces(value) }],
            ),
        ),
        rendered(text_pieces(value), vars) == value,
{
    let line = name + seq!['='] + value;
    let s = line.push('\n');
    let n = name.len() as int;
    let m = value.len() as int;
    assert(s.len() == n + m + 2);
    assert(forall|k: int| 0 <= k < n ==> s[k] == name[k]);
    assert(s[n] == '=');
    assert(forall|k: int| 0 <= k < m ==> s[n + 1 + k] == value[k]);
    assert(s[n + m + 1] == '\n');
    assert(!is_var_char('=') && !is_path_char('\n') && !is_var_char('\n') && !is_space_char(
        '\n',
    ));
    assert(!is_space_char(s[0]));
    // the variable name
    assert(forall|k: int| 0 <= k < n ==> is_var_char(s[k]));
    lemma_scan_var_exact(s, 0, n);
    assert(sp_var_name(s, 0) == Some((n, s.subrange(0, n))));
    assert(s.subrange(0, n) =~= name);
    // the value piece
    let vstart = n + 1;
    let vend = n + 1 + m;
    if m == 0 {
        assert(scan_path(s, vstart) == vstart) by {
            lemma_scan_path_exact(s, vstart, vstart);
        }
        assert(sp_piece(s, vstart) is None);
        assert(sp_set_variable(s, 0) == Some(
            (vstart, SetVariableModel { name, value: Seq::empty() }),
        ));
        assert(text_pieces(value) =~= Seq::<PieceModel>::empty());
    } else {
        assert(forall|k: int| vstart <= k < vend ==> is_path_char(s[k]));
        lemma_scan_path_exact(s, vstart, vend);
        let t = s.subrange(vstart, vend);
        assert(t =~= value);
        assert(t[0] != '~');
        assert(sp_fragment(s, vstart) == Some((vend, seq![PieceModel::Fixed(value)])));
        // no further fragment at the newline
        assert(scan_path(s, vend) == vend) by {
            lemma_scan_path_exact(s, vend, vend);
        }
        assert(sp_fragment(s, vend) is None);
        assert(sp_piece_rest(s, vend, seq![PieceModel::Fixed(value)]) == (
            vend,
            seq![PieceModel::Fixed(value)],
        ));
        assert(sp_piece(s, vstart) == Some((vend, seq![PieceModel::Fixed(value)])));
        assert(sp_set_variable(s, 0) == Some(
            (vend, SetVariableModel { name, value: seq![PieceModel::Fixed(value)] }),
        ));
        assert(text_pieces(value) =~= seq![PieceModel::Fixed(value)]);
    }
    let endpos = if m == 0 { vstart } else { vend };
    let sv = SetVariableModel { name, value: text_pieces(value) };
    // after the assignment only the newline is left: no second assignment,
    // no piece, so the line is the one assignment
    assert(scan_space(s, endpos) == endpos);
    assert(sp_var_name(s, endpos) is None);
    assert(sp_set_variable(s, endpos) is None);
    assert(sp_vars_rest(s, endpos, seq![sv]) == (endpos, seq![sv]));
    assert(scan_space(s, 0) == 0);
    assert(sp_set_variable(s, 0) == Some((endpos, sv)));
    assert(sp_vars_rest(s, 0, Seq::<SetVariableModel>::empty()) == (
        endpos,
        Seq::<SetVariableModel>::empty().push(sv),
    ));
    assert(Seq::<SetVariableModel>::empty().push(sv) =~= seq![sv]);
    // the command alternative fails: there is no argument piece
    assert(sp_piece(s, endpos) is None);
    assert(sp_command(s, 0) is None);
    assert(sp_set_variables(s, 0) == Some((endpos, seq![sv])));
    assert(sp_parse_line(s, 0) == Some((endpos, ParsedLineModel::SetVariables(seq![sv]))));
    assert(scan_space(s, endpos) == endpos);
    assert(endpos == s.len() - 1 && s[endpos] == '\n');
    assert(spec_parse(line) == Some(ParsedLineModel::SetVariables(seq![sv])));
    lemma_rendered_of_text(value, vars);
}

} // verus!
