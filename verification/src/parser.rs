//! The executable line parser.
//!
//! Each parsing function consumes characters from a fixed position and is
//! proved to return exactly what the corresponding grammar production in
//! [`crate::grammar`] denotes.
use vstd::prelude::*;

use crate::grammar::CommandModel;
use crate::grammar::ParsedLineModel;
use crate::grammar::RedirectModel;
use crate::grammar::RedirectNodeModel;
use crate::grammar::RedirectType;
use crate::grammar::SetVariableModel;
use crate::grammar::descriptor_limit;
use crate::grammar::is_digit_char;
use crate::grammar::is_path_char;
use crate::grammar::is_space_char;
use crate::grammar::is_var_char;
use crate::grammar::lemma_scan_digit_bounds;
use crate::grammar::lemma_scan_not_rbracket_bounds;
use crate::grammar::lemma_scan_path_bounds;
use crate::grammar::lemma_scan_space_bounds;
use crate::grammar::lemma_scan_var_bounds;
use crate::grammar::lemma_sp_fragment_bounds;
use crate::grammar::lemma_sp_interp_body_bounds;
use crate::grammar::lemma_sp_piece_bounds;
use crate::grammar::lemma_sp_piece_rest_bounds;
use crate::grammar::lemma_sp_pieces_rest_bounds;
use crate::grammar::lemma_sp_redirect_bounds;
use crate::grammar::lemma_sp_redirect_node_left_bounds;
use crate::grammar::lemma_sp_redirect_node_right_bounds;
use crate::grammar::lemma_sp_redirects_rest_bounds;
use crate::grammar::lemma_sp_set_variable_bounds;
use crate::grammar::lemma_sp_uq_body_bounds;
use crate::grammar::lemma_sp_var_name_bounds;
use crate::grammar::lemma_sp_vars_rest_bounds;
use crate::grammar::scan_digit;
use crate::grammar::scan_not_rbracket;
use crate::grammar::scan_path;
use crate::grammar::scan_space;
use crate::grammar::scan_var;
use crate::grammar::sp_command;
use crate::grammar::sp_digits_val;
use crate::grammar::sp_escape_interp;
use crate::grammar::sp_fragment;
use crate::grammar::sp_glob;
use crate::grammar::sp_interp_body;
use crate::grammar::sp_interp_string;
use crate::grammar::sp_parse_line;
use crate::grammar::sp_path;
use crate::grammar::sp_piece;
use crate::grammar::sp_piece_rest;
use crate::grammar::sp_pieces_rest;
use crate::grammar::sp_redirect;
use crate::grammar::sp_redirect_node_left;
use crate::grammar::sp_redirect_node_right;
use crate::grammar::sp_redirect_type;
use crate::grammar::sp_redirects_rest;
use crate::grammar::sp_set_variable;
use crate::grammar::sp_set_variables;
use crate::grammar::sp_uninterp_string;
use crate::grammar::sp_uq_body;
use crate::grammar::sp_var_name;
use crate::grammar::sp_vars_rest;
use crate::grammar::spec_parse;
use crate::strings::Piece;
use crate::strings::PieceModel;
use crate::strings::ShellString;
use crate::strings::text_pieces;

verus! {

/// An error during parsing. It is deliberately opaque: any grammar
/// violation rejects the whole line.
#[derive(Clone, Debug)]
pub struct Error {}

/// A `name=value` variable to set.
#[derive(Clone, Debug, PartialEq)]
pub struct SetVariable {
    pub name: String,
    pub value: ShellString,
}

impl View for SetVariable {
    type V = SetVariableModel;

    open spec fn view(&self) -> SetVariableModel {
        SetVariableModel { name: self.name@, value: self.value@ }
    }
}

impl DeepView for SetVariable {
    type V = SetVariableModel;

    open spec fn deep_view(&self) -> SetVariableModel {
        self.view()
    }
}

/// One operand of a redirect: a file named by a shell string, or a file
/// descriptor number.
#[derive(Clone, Debug, PartialEq)]
pub enum RedirectNode {
    File(ShellString),
    Descriptor(i32),
}

impl View for RedirectNode {
    type V = RedirectNodeModel;

    open spec fn view(&self) -> RedirectNodeModel {
        match self {
            RedirectNode::File(s) => RedirectNodeModel::File(s@),
            RedirectNode::Descriptor(n) => RedirectNodeModel::Descriptor(*n as int),
        }
    }
}

impl DeepView for RedirectNode {
    type V = RedirectNodeModel;

    open spec fn deep_view(&self) -> RedirectNodeModel {
        self.view()
    }
}

/// An I/O redirect, with operands normalized so that `from` is the source
/// and `to` the target, whatever side of the operator they were written on.
#[derive(Clone, Debug, PartialEq)]
pub struct Redirect {
    pub from: Option<RedirectNode>,
    pub to: Option<RedirectNode>,
    pub typ: RedirectType,
}

impl View for Redirect {
    type V = RedirectModel;

    open spec fn view(&self) -> RedirectModel {
        RedirectModel { from: self.from.deep_view(), to: self.to.deep_view(), typ: self.typ }
    }
}

impl DeepView for Redirect {
    type V = RedirectModel;

    open spec fn deep_view(&self) -> RedirectModel {
        self.view()
    }
}

/// A command and its context: assignments scoped to this invocation, the
/// argument words (the first is the command name), and any redirects.
#[derive(Clone, Debug, PartialEq)]
pub struct Command {
    pub vars: Vec<SetVariable>,
    pub args: Vec<ShellString>,
    pub redirects: Vec<Redirect>,
}

impl View for Command {
    type V = CommandModel;

    open spec fn view(&self) -> CommandModel {
        CommandModel {
            vars: self.vars.deep_view(),
            args: self.args.deep_view(),
            redirects: self.redirects.deep_view(),
        }
    }
}

/// A line that has been parsed.
#[derive(Clone, Debug, PartialEq)]
pub enum ParsedLine {
    /// An empty line: nothing to do.
    Empty,
    /// One or more variable assignments to apply to the environment.
    SetVariables(Vec<SetVariable>),
    /// A command to run.
    Command(Command),
}

impl View for ParsedLine {
    type V = ParsedLineModel;

    open spec fn view(&self) -> ParsedLineModel {
        match self {
            ParsedLine::Empty => ParsedLineModel::Empty,
            ParsedLine::SetVariables(vars) => ParsedLineModel::SetVariables(vars.deep_view()),
            ParsedLine::Command(c) => ParsedLineModel::Command(c@),
        }
    }
}

/// Appends one character to a string.
///
/// Relies on `String::push`: the character is appended at the end.
#[verifier::external_body]
pub(crate) fn push_char(s: &mut String, c: char)
    ensures
        final(s)@ == old(s)@.push(c),
{
    s.push(c);
}

/// The characters of `s`, in order, as a vector.
pub(crate) fn str_chars(s: &str) -> (v: Vec<char>)
    ensures
        v@ == s@,
{
    let n = s.unicode_len();
    let mut v: Vec<char> = Vec::new();
    let mut i: usize = 0;
    while i < n
        invariant
            i <= n,
            n == s@.len(),
            v@ == s@.subrange(0, i as int),
        decreases n - i,
    {
        let c = s.get_char(i);
        v.push(c);
        proof {
            assert(v@ =~= s@.subrange(0, i + 1 as int));
        }
        i = i + 1;
    }
    proof {
        assert(v@ =~= s@);
    }
    v
}

/// The characters of `v` from `from` up to `to`, as a string.
pub(crate) fn copy_range(v: &Vec<char>, from: usize, to: usize) -> (s: String)
    requires
        from <= to <= v@.len(),
    ensures
        s@ == v@.subrange(from as int, to as int),
{
    let mut s = String::new();
    let mut i: usize = from;
    while i < to
        invariant
            from <= i <= to <= v@.len(),
            s@ == v@.subrange(from as int, i as int),
        decreases to - i,
    {
        push_char(&mut s, v[i]);
        proof {
            assert(s@ =~= v@.subrange(from as int, i + 1 as int));
        }
        i = i + 1;
    }
    s
}

/// Whether `c` may appear in a variable name: ASCII alphanumeric or an
/// underscore.
pub fn is_var_character(c: char) -> (r: bool)
    ensures
        r == is_var_char(c),
{
    let n = c as u32;
    (97 <= n && n <= 122) || (65 <= n && n <= 90) || (48 <= n && n <= 57) || c == '_'
}

/// Whether `c` may appear in a path-like word or command name.
pub fn is_path_character(c: char) -> (r: bool)
    ensures
        r == is_path_char(c),
{
    let n = c as u32;
    c == '/' || (97 <= n && n <= 122) || (65 <= n && n <= 90) || (48 <= n && n <= 57) || c == '~'
        || c == '-' || c == '_' || c == '.' || c == '='
}

fn is_space_character(c: char) -> (r: bool)
    ensures
        r == is_space_char(c),
{
    let n = c as u32;
    n == 0x09 || n == 0x0b || n == 0x0c || n == 0x20 || n == 0x85 || n == 0xa0 || n == 0x1680
        || (0x2000 <= n && n <= 0x200a) || n == 0x2028 || n == 0x2029 || n == 0x202f
        || n == 0x205f || n == 0x3000
}

pub(crate) fn is_digit_character(c: char) -> (r: bool)
    ensures
        r == is_digit_char(c),
{
    let n = c as u32;
    48 <= n && n <= 57
}

fn scan_space_x(v: &Vec<char>, i: usize) -> (j: usize)
    requires
        i <= v@.len(),
    ensures
        j as int == scan_space(v@, i as int),
        i <= j <= v@.len(),
    decreases v@.len() - i,
{
    proof {
        lemma_scan_space_bounds(v@, i as int);
    }
    if i < v.len() && is_space_character(v[i]) {
        scan_space_x(v, i + 1)
    } else {
        i
    }
}

fn scan_var_x(v: &Vec<char>, i: usize) -> (j: usize)
    requires
        i <= v@.len(),
    ensures
        j as int == scan_var(v@, i as int),
        i <= j <= v@.len(),
    decreases v@.len() - i,
{
    proof {
        lemma_scan_var_bounds(v@, i as int);
    }
    if i < v.len() && is_var_character(v[i]) {
        scan_var_x(v, i + 1)
    } else {
        i
    }
}

fn scan_path_x(v: &Vec<char>, i: usize) -> (j: usize)
    requires
        i <= v@.len(),
    ensures
        j as int == scan_path(v@, i as int),
        i <= j <= v@.len(),
    decreases v@.len() - i,
{
    proof {
        lemma_scan_path_bounds(v@, i as int);
    }
    if i < v.len() && is_path_character(v[i]) {
        scan_path_x(v, i + 1)
    } else {
        i
    }
}

fn scan_digit_x(v: &Vec<char>, i: usize) -> (j: usize)
    requires
        i <= v@.len(),
    ensures
        j as int == scan_digit(v@, i as int),
        i <= j <= v@.len(),
    decreases v@.len() - i,
{
    proof {
        lemma_scan_digit_bounds(v@, i as int);
    }
    if i < v.len() && is_digit_character(v[i]) {
        scan_digit_x(v, i + 1)
    } else {
        i
    }
}

fn scan_not_rbracket_x(v: &Vec<char>, i: usize) -> (j: usize)
    requires
        i <= v@.len(),
    ensures
        j as int == scan_not_rbracket(v@, i as int),
        i <= j <= v@.len(),
    decreases v@.len() - i,
{
    proof {
        lemma_scan_not_rbracket_bounds(v@, i as int);
    }
    if i < v.len() && v[i] != ']' {
        scan_not_rbracket_x(v, i + 1)
    } else {
        i
    }
}

fn var_name_at(v: &Vec<char>, i: usize) -> (r: Option<(usize, String)>)
    requires
        i <= v@.len(),
    ensures
        match r {
            Some((j, name)) => sp_var_name(v@, i as int) == Some((j as int, name@)) && i < j
                <= v@.len(),
            None => sp_var_name(v@, i as int) is None,
        },
{
    proof {
        lemma_sp_var_name_bounds(v@, i as int);
    }
    if i < v.len() && is_var_character(v[i]) && !is_digit_character(v[i]) {
        let j = scan_var_x(v, i);
        let name = copy_range(v, i, j);
        Some((j, name))
    } else {
        None
    }
}

fn path_at(v: &Vec<char>, i: usize) -> (r: Option<(usize, Vec<Piece>)>)
    requires
        i <= v@.len(),
    ensures
        match r {
            Some((j, ps)) => sp_path(v@, i as int) == Some((j as int, ps.deep_view())) && i < j
                <= v@.len(),
            None => sp_path(v@, i as int) is None,
        },
{
    proof {
        lemma_scan_path_bounds(v@, i as int);
    }
    let j = scan_path_x(v, i);
    if j == i {
        None
    } else {
        if v[i] == '~' {
            let home = Piece::Variable("HOME".to_owned());
            let rest = Piece::Fixed(copy_range(v, i + 1, j));
            let ps = vec![home, rest];
            proof {
                let t = v@.subrange(i as int, j as int);
                assert(t[0] == v@[i as int]);
                assert(t.subrange(1, t.len() as int) =~= v@.subrange(i + 1 as int, j as int));
                assert(ps.deep_view() =~= seq![
                    PieceModel::Variable("HOME"@),
                    PieceModel::Fixed(t.subrange(1, t.len() as int)),
                ]);
            }
            Some((j, ps))
        } else {
            let text = Piece::Fixed(copy_range(v, i, j));
            let ps = vec![text];
            proof {
                let t = v@.subrange(i as int, j as int);
                assert(t[0] == v@[i as int]);
                assert(ps.deep_view() =~= seq![PieceModel::Fixed(t)]);
            }
            Some((j, ps))
        }
    }
}

fn glob_piece(v: &Vec<char>, from: usize, to: usize) -> (ps: Vec<Piece>)
    requires
        from <= to <= v@.len(),
    ensures
        ps.deep_view() == seq![PieceModel::Glob(v@.subrange(from as int, to as int))],
{
    let ps = vec![Piece::Glob(copy_range(v, from, to))];
    proof {
        assert(ps.deep_view() =~= seq![PieceModel::Glob(v@.subrange(from as int, to as int))]);
    }
    ps
}

fn glob_at(v: &Vec<char>, i: usize) -> (r: Option<(usize, Vec<Piece>)>)
    requires
        i <= v@.len(),
    ensures
        match r {
            Some((j, ps)) => sp_glob(v@, i as int) == Some((j as int, ps.deep_view())) && i < j
                <= v@.len(),
            None => sp_glob(v@, i as int) is None,
        },
{
    let n = v.len();
    if i < n && v[i] == '?' {
        Some((i + 1, glob_piece(v, i, i + 1)))
    } else if n - i >= 2 && v[i] == '*' && v[i + 1] == '*' {
        Some((i + 2, glob_piece(v, i, i + 2)))
    } else if i < n && v[i] == '*' {
        Some((i + 1, glob_piece(v, i, i + 1)))
    } else if n - i >= 3 && v[i] == '[' && v[i + 1] == ']' && v[i + 2] == ']' {
        Some((i + 3, glob_piece(v, i, i + 3)))
    } else if n - i >= 4 && v[i] == '[' && v[i + 1] == '!' && v[i + 2] == ']' && v[i + 3] == ']' {
        Some((i + 4, glob_piece(v, i, i + 4)))
    } else if i < n && v[i] == '[' {
        proof {
            lemma_scan_not_rbracket_bounds(v@, i + 1 as int);
        }
        let j = scan_not_rbracket_x(v, i + 1);
        if j > i + 1 && j < n && v[j] == ']' {
            Some((j + 1, glob_piece(v, i, j + 1)))
        } else {
            None
        }
    } else {
        None
    }
}

fn escape_interp(c: char) -> (r: Option<char>)
    ensures
        r == sp_escape_interp(c),
{
    if c == '\\' {
        Some('\\')
    } else if c == '"' {
        Some('"')
    } else if c == '\'' {
        Some('\'')
    } else if c == 'n' {
        Some('\n')
    } else if c == 'r' {
        Some('\r')
    } else if c == 't' {
        Some('\t')
    } else {
        None
    }
}

fn push_fixed(buf: String, acc: Vec<Piece>) -> (r: Vec<Piece>)
    ensures
        r.deep_view() == (if buf@.len() > 0 {
            acc.deep_view().push(PieceModel::Fixed(buf@))
        } else {
            acc.deep_view()
        }),
{
    let mut acc = acc;
    if !buf.as_str().is_empty() {
        let ghost old_acc = acc.deep_view();
        acc.push(Piece::Fixed(buf));
        proof {
            assert(acc.deep_view() =~= old_acc.push(PieceModel::Fixed(buf@)));
        }
    }
    acc
}

fn interp_body_at(v: &Vec<char>, i: usize, buf: String, acc: Vec<Piece>) -> (r: Option<
    (usize, Vec<Piece>),
>)
    requires
        i <= v@.len(),
    ensures
        match r {
            Some((j, ps)) => sp_interp_body(v@, i as int, buf@, acc.deep_view()) == Some(
                (j as int, ps.deep_view()),
            ) && i <= j <= v@.len(),
            None => sp_interp_body(v@, i as int, buf@, acc.deep_view()) is None,
        },
    decreases v@.len() - i,
{
    proof {
        lemma_sp_interp_body_bounds(v@, i as int, buf@, acc.deep_view());
    }
    if i >= v.len() {
        None
    } else if v[i] == '"' {
        Some((i, push_fixed(buf, acc)))
    } else if v[i] == '$' {
        if i + 1 < v.len() && v[i + 1] == '{' {
            proof {
                lemma_sp_var_name_bounds(v@, i + 2 as int);
            }
            match var_name_at(v, i + 2) {
                Some((j, name)) => {
                    if j < v.len() && v[j] == '}' {
                        let mut acc2 = push_fixed(buf, acc);
                        let ghost acc2v = acc2.deep_view();
                        acc2.push(Piece::Variable(name));
                        proof {
                            assert(acc2.deep_view() =~= acc2v.push(
                                PieceModel::Variable(sp_var_name(v@, i + 2 as int)->Some_0.1),
                            ));
                        }
                        interp_body_at(v, j + 1, String::new(), acc2)
                    } else {
                        None
                    }
                },
                None => None,
            }
        } else {
            None
        }
    } else if v[i] == '\\' {
        if i + 1 < v.len() {
            match escape_interp(v[i + 1]) {
                Some(c) => {
                    let mut buf = buf;
                    push_char(&mut buf, c);
                    interp_body_at(v, i + 2, buf, acc)
                },
                None => None,
            }
        } else {
            None
        }
    } else {
        let c = v[i];
        let mut buf = buf;
        push_char(&mut buf, c);
        interp_body_at(v, i + 1, buf, acc)
    }
}

fn interp_string_at(v: &Vec<char>, i: usize) -> (r: Option<(usize, Vec<Piece>)>)
    requires
        i <= v@.len(),
    ensures
        match r {
            Some((j, ps)) => sp_interp_string(v@, i as int) == Some((j as int, ps.deep_view()))
                && i < j <= v@.len(),
            None => sp_interp_string(v@, i as int) is None,
        },
{
    if i < v.len() && v[i] == '"' {
        let buf0 = String::new();
        let acc0: Vec<Piece> = Vec::new();
        proof {
            lemma_sp_interp_body_bounds(v@, i + 1 as int, buf0@, acc0.deep_view());
            assert(acc0.deep_view() =~= Seq::<PieceModel>::empty());
        }
        match interp_body_at(v, i + 1, buf0, acc0) {
            Some((j, ps)) => {
                if j < v.len() && v[j] == '"' {
                    Some((j + 1, ps))
                } else {
                    None
                }
            },
            None => None,
        }
    } else {
        None
    }
}

fn uq_body_at(v: &Vec<char>, i: usize, buf: String) -> (r: Option<(usize, String)>)
    requires
        i <= v@.len(),
    ensures
        match r {
            Some((j, t)) => sp_uq_body(v@, i as int, buf@) == Some((j as int, t@)) && i <= j
                < v@.len(),
            None => sp_uq_body(v@, i as int, buf@) is None,
        },
    decreases v@.len() - i,
{
    proof {
        lemma_sp_uq_body_bounds(v@, i as int, buf@);
    }
    if i >= v.len() {
        None
    } else if v[i] == '\'' {
        Some((i, buf))
    } else if v[i] == '\\' {
        if i + 1 < v.len() && (v[i + 1] == '\\' || v[i + 1] == '\'') {
            let c = v[i + 1];
            let mut buf = buf;
            push_char(&mut buf, c);
            uq_body_at(v, i + 2, buf)
        } else {
            None
        }
    } else {
        let c = v[i];
        let mut buf = buf;
        push_char(&mut buf, c);
        uq_body_at(v, i + 1, buf)
    }
}

fn uninterp_string_at(v: &Vec<char>, i: usize) -> (r: Option<(usize, Vec<Piece>)>)
    requires
        i <= v@.len(),
    ensures
        match r {
            Some((j, ps)) => sp_uninterp_string(v@, i as int) == Some((j as int, ps.deep_view()))
                && i < j <= v@.len(),
            None => sp_uninterp_string(v@, i as int) is None,
        },
{
    if i < v.len() && v[i] == '\'' {
        let buf0 = String::new();
        match uq_body_at(v, i + 1, buf0) {
            Some((j, t)) => {
                let ps = if t.as_str().is_empty() {
                    Vec::new()
                } else {
                    vec![Piece::Fixed(t)]
                };
                proof {
                    assert(ps.deep_view() =~= text_pieces(sp_uq_body(
                        v@,
                        i + 1 as int,
                        Seq::empty(),
                    )->Some_0.1));
                }
                Some((j + 1, ps))
            },
            None => None,
        }
    } else {
        None
    }
}

fn fragment_at(v: &Vec<char>, i: usize) -> (r: Option<(usize, Vec<Piece>)>)
    requires
        i <= v@.len(),
    ensures
        match r {
            Some((j, ps)) => sp_fragment(v@, i as int) == Some((j as int, ps.deep_view())) && i < j
                <= v@.len(),
            None => sp_fragment(v@, i as int) is None,
        },
{
    match path_at(v, i) {
        Some(r) => Some(r),
        None => match glob_at(v, i) {
            Some(r) => Some(r),
            None => match interp_string_at(v, i) {
                Some(r) => Some(r),
                None => uninterp_string_at(v, i),
            },
        },
    }
}

fn piece_rest_at(v: &Vec<char>, i: usize, acc: Vec<Piece>) -> (r: (usize, Vec<Piece>))
    requires
        i <= v@.len(),
    ensures
        sp_piece_rest(v@, i as int, acc.deep_view()) == (r.0 as int, r.1.deep_view()),
        i <= r.0 <= v@.len(),
    decreases v@.len() - i,
{
    proof {
        lemma_sp_fragment_bounds(v@, i as int);
        lemma_sp_piece_rest_bounds(v@, i as int, acc.deep_view());
    }
    match fragment_at(v, i) {
        Some((j, ps)) => {
            let mut acc = acc;
            let mut ps = ps;
            let ghost accv = acc.deep_view();
            let ghost psv = ps.deep_view();
            acc.append(&mut ps);
            proof {
                assert(acc.deep_view() =~= accv + psv);
            }
            piece_rest_at(v, j, acc)
        },
        None => (i, acc),
    }
}

fn piece_at(v: &Vec<char>, i: usize) -> (r: Option<(usize, Vec<Piece>)>)
    requires
        i <= v@.len(),
    ensures
        match r {
            Some((j, ps)) => sp_piece(v@, i as int) == Some((j as int, ps.deep_view())) && i < j
                <= v@.len(),
            None => sp_piece(v@, i as int) is None,
        },
{
    proof {
        lemma_sp_piece_bounds(v@, i as int);
    }
    match fragment_at(v, i) {
        None => None,
        Some((j, ps)) => {
            let rest = piece_rest_at(v, j, ps);
            if rest.0 < v.len() && v[rest.0] == '<' {
                None
            } else {
                Some(rest)
            }
        },
    }
}

fn set_variable_at(v: &Vec<char>, i: usize) -> (r: Option<(usize, SetVariable)>)
    requires
        i <= v@.len(),
    ensures
        match r {
            Some((j, sv)) => sp_set_variable(v@, i as int) == Some((j as int, sv@)) && i < j
                <= v@.len(),
            None => sp_set_variable(v@, i as int) is None,
        },
{
    match var_name_at(v, i) {
        None => None,
        Some((j, name)) => {
            if j < v.len() && v[j] == '=' {
                match piece_at(v, j + 1) {
                    Some((k, ps)) => {
                        let value = ShellString::from(ps);
                        Some((k, SetVariable { name, value }))
                    },
                    None => {
                        let empty_pieces: Vec<Piece> = Vec::new();
                        proof {
                            assert(empty_pieces.deep_view() =~= Seq::<PieceModel>::empty());
                        }
                        let value = ShellString::from(empty_pieces);
                        Some((j + 1, SetVariable { name, value }))
                    },
                }
            } else {
                None
            }
        },
    }
}

/// The numeric value of the digits between `from` and `to`, when it is
/// within the descriptor limit.
fn digits_value(v: &Vec<char>, from: usize, to: usize) -> (r: Option<i32>)
    requires
        from <= to <= v@.len(),
        forall|k: int| from <= k < to ==> is_digit_char(v@[k]),
    ensures
        match r {
            Some(n) => sp_digits_val(v@.subrange(from as int, to as int)) == n as int && n >= 0,
            None => sp_digits_val(v@.subrange(from as int, to as int)) > descriptor_limit(),
        },
{
    let mut val: i64 = 0;
    let mut i: usize = from;
    while i < to
        invariant
            from <= i <= to <= v@.len(),
            forall|k: int| from <= k < to ==> is_digit_char(v@[k]),
            0 <= val <= descriptor_limit(),
            val as int == sp_digits_val(v@.subrange(from as int, i as int)),
        decreases to - i,
    {
        let d = (v[i] as u32) - 48;
        proof {
            let t = v@.subrange(from as int, i + 1 as int);
            assert(t.drop_last() =~= v@.subrange(from as int, i as int));
            assert(t.last() == v@[i as int]);
            lemma_digits_val_mono(v@, from as int, i + 1 as int, to as int);
        }
        let next = val * 10 + (d as i64);
        if next > 0x7fff_ffff {
            return None;
        }
        val = next;
        i = i + 1;
    }
    proof {
        assert(v@.subrange(from as int, to as int) =~= v@.subrange(from as int, i as int));
    }
    Some(val as i32)
}

/// Appending digits never lowers the value: if a prefix already exceeds
/// the limit, the whole run does.
proof fn lemma_digits_val_mono(s: Seq<char>, from: int, mid: int, to: int)
    requires
        0 <= from <= mid <= to <= s.len(),
        forall|k: int| from <= k < to ==> is_digit_char(s[k]),
    ensures
        sp_digits_val(s.subrange(from, to)) >= sp_digits_val(s.subrange(from, mid)),
        sp_digits_val(s.subrange(from, to)) >= 0,
    decreases to - mid,
{
    if mid == to {
        assert(s.subrange(from, to) =~= s.subrange(from, mid));
        lemma_digits_val_nonneg(s.subrange(from, mid));
    } else {
        lemma_digits_val_mono(s, from, mid + 1, to);
        let t = s.subrange(from, mid + 1);
        assert(t.drop_last() =~= s.subrange(from, mid));
        assert(t.last() == s[mid]);
        lemma_digits_val_nonneg(s.subrange(from, mid));
    }
}

proof fn lemma_digits_val_nonneg(t: Seq<char>)
    requires
        forall|k: int| 0 <= k < t.len() ==> is_digit_char(t[k]),
    ensures
        sp_digits_val(t) >= 0,
    decreases t.len(),
{
    if t.len() > 0 {
        lemma_digits_val_nonneg(t.drop_last());
    }
}

fn redirect_node_left_at(v: &Vec<char>, i: usize) -> (r: (usize, Option<RedirectNode>))
    requires
        i <= v@.len(),
    ensures
        ({
            let m = sp_redirect_node_left(v@, i as int);
            m.0 == r.0 as int && m.1 == r.1.deep_view() && i <= r.0 <= v@.len()
        }),
{
    proof {
        lemma_sp_redirect_node_left_bounds(v@, i as int);
        lemma_scan_digit_bounds(v@, i as int);
    }
    match path_at(v, i) {
        Some((j, ps)) => (j, Some(RedirectNode::File(ShellString::from(ps)))),
        None => {
            let j = scan_digit_x(v, i);
            if j > i {
                match digits_value(v, i, j) {
                    Some(n) => (j, Some(RedirectNode::Descriptor(n))),
                    None => (i, None),
                }
            } else {
                (i, None)
            }
        },
    }
}

fn redirect_node_right_at(v: &Vec<char>, i: usize) -> (r: (usize, Option<RedirectNode>))
    requires
        i <= v@.len(),
    ensures
        ({
            let m = sp_redirect_node_right(v@, i as int);
            m.0 == r.0 as int && m.1 == r.1.deep_view() && i <= r.0 <= v@.len()
        }),
{
    proof {
        lemma_sp_redirect_node_right_bounds(v@, i as int);
    }
    match path_at(v, i) {
        Some((j, ps)) => (j, Some(RedirectNode::File(ShellString::from(ps)))),
        None => {
            if i < v.len() && v[i] == '&' {
                proof {
                    lemma_scan_digit_bounds(v@, i + 1 as int);
                }
                let j = scan_digit_x(v, i + 1);
                if j > i + 1 {
                    match digits_value(v, i + 1, j) {
                        Some(n) => (j, Some(RedirectNode::Descriptor(n))),
                        None => (i, None),
                    }
                } else {
                    (i, None)
                }
            } else {
                (i, None)
            }
        },
    }
}

fn redirect_type_at(v: &Vec<char>, i: usize) -> (r: Option<(usize, RedirectType)>)
    requires
        i <= v@.len(),
    ensures
        match r {
            Some((j, t)) => sp_redirect_type(v@, i as int) == Some((j as int, t)) && i < j
                <= v@.len(),
            None => sp_redirect_type(v@, i as int) is None,
        },
{
    if i < v.len() && v[i] == '<' {
        Some((i + 1, RedirectType::In))
    } else if v.len() - i >= 2 && v[i] == '>' && v[i + 1] == '>' {
        Some((i + 2, RedirectType::OutAppend))
    } else if i < v.len() && v[i] == '>' {
        Some((i + 1, RedirectType::OutTruncate))
    } else {
        None
    }
}

fn redirect_at(v: &Vec<char>, i: usize) -> (r: Option<(usize, Redirect)>)
    requires
        i <= v@.len(),
    ensures
        match r {
            Some((j, rd)) => sp_redirect(v@, i as int) == Some((j as int, rd@)) && i < j
                <= v@.len(),
            None => sp_redirect(v@, i as int) is None,
        },
{
    proof {
        lemma_sp_redirect_bounds(v@, i as int);
    }
    let (i1, left) = redirect_node_left_at(v, i);
    match redirect_type_at(v, i1) {
        None => None,
        Some((i2, t)) => {
            let (i3, right) = redirect_node_right_at(v, i2);
            match t {
                RedirectType::In => Some((i3, Redirect { from: right, to: left, typ: t })),
                RedirectType::OutTruncate => Some(
                    (i3, Redirect { from: left, to: right, typ: t }),
                ),
                RedirectType::OutAppend => Some((i3, Redirect { from: left, to: right, typ: t })),
            }
        },
    }
}

fn vars_rest_at(v: &Vec<char>, i: usize, acc: Vec<SetVariable>) -> (r: (usize, Vec<SetVariable>))
    requires
        i <= v@.len(),
    ensures
        sp_vars_rest(v@, i as int, acc.deep_view()) == (r.0 as int, r.1.deep_view()),
        i <= r.0 <= v@.len(),
    decreases v@.len() - i,
{
    proof {
        lemma_scan_space_bounds(v@, i as int);
        lemma_sp_set_variable_bounds(v@, scan_space(v@, i as int));
        lemma_sp_vars_rest_bounds(v@, i as int, acc.deep_view());
    }
    let j = scan_space_x(v, i);
    match set_variable_at(v, j) {
        Some((k, sv)) => {
            let mut acc = acc;
            let ghost accv = acc.deep_view();
            acc.push(sv);
            proof {
                assert(acc.deep_view() =~= accv.push(sv@));
            }
            vars_rest_at(v, k, acc)
        },
        None => (i, acc),
    }
}

fn pieces_rest_at(v: &Vec<char>, i: usize, acc: Vec<ShellString>) -> (r: (usize, Vec<ShellString>))
    requires
        i <= v@.len(),
    ensures
        sp_pieces_rest(v@, i as int, acc.deep_view()) == (r.0 as int, r.1.deep_view()),
        i <= r.0 <= v@.len(),
    decreases v@.len() - i,
{
    proof {
        lemma_scan_space_bounds(v@, i as int);
        lemma_sp_piece_bounds(v@, scan_space(v@, i as int));
        lemma_sp_pieces_rest_bounds(v@, i as int, acc.deep_view());
    }
    let j = scan_space_x(v, i);
    match piece_at(v, j) {
        Some((k, ps)) => {
            let mut acc = acc;
            let ghost accv = acc.deep_view();
            acc.push(ShellString::from(ps));
            proof {
                assert(acc.deep_view() =~= accv.push(sp_piece(v@, j as int)->Some_0.1));
            }
            pieces_rest_at(v, k, acc)
        },
        None => (i, acc),
    }
}

fn redirects_rest_at(v: &Vec<char>, i: usize, acc: Vec<Redirect>) -> (r: (usize, Vec<Redirect>))
    requires
        i <= v@.len(),
    ensures
        sp_redirects_rest(v@, i as int, acc.deep_view()) == (r.0 as int, r.1.deep_view()),
        i <= r.0 <= v@.len(),
    decreases v@.len() - i,
{
    proof {
        lemma_scan_space_bounds(v@, i as int);
        lemma_sp_redirect_bounds(v@, scan_space(v@, i as int));
        lemma_sp_redirects_rest_bounds(v@, i as int, acc.deep_view());
    }
    let j = scan_space_x(v, i);
    match redirect_at(v, j) {
        Some((k, rd)) => {
            let mut acc = acc;
            let ghost accv = acc.deep_view();
            acc.push(rd);
            proof {
                assert(acc.deep_view() =~= accv.push(sp_redirect(v@, j as int)->Some_0.1));
            }
            redirects_rest_at(v, k, acc)
        },
        None => (i, acc),
    }
}

fn command_at(v: &Vec<char>, i: usize) -> (r: Option<(usize, Command)>)
    requires
        i <= v@.len(),
    ensures
        match r {
            Some((j, c)) => sp_command(v@, i as int) == Some((j as int, c@)) && i <= j <= v@.len(),
            None => sp_command(v@, i as int) is None,
        },
{
    let vars0: Vec<SetVariable> = Vec::new();
    proof {
        assert(vars0.deep_view() =~= Seq::<SetVariableModel>::empty());
    }
    let (i1, vars) = vars_rest_at(v, i, vars0);
    let j = scan_space_x(v, i1);
    match piece_at(v, j) {
        None => None,
        Some((j2, p0)) => {
            let first = ShellString::from(p0);
            let args0 = vec![first];
            proof {
                assert(args0.deep_view() =~= seq![sp_piece(v@, j as int)->Some_0.1]);
            }
            let (i2, args) = pieces_rest_at(v, j2, args0);
            let reds0: Vec<Redirect> = Vec::new();
            proof {
                assert(reds0.deep_view() =~= Seq::<RedirectModel>::empty());
            }
            let (i3, redirects) = redirects_rest_at(v, i2, reds0);
            Some((i3, Command { vars, args, redirects }))
        },
    }
}

fn set_variables_at(v: &Vec<char>, i: usize) -> (r: Option<(usize, Vec<SetVariable>)>)
    requires
        i <= v@.len(),
    ensures
        match r {
            Some((j, vars)) => sp_set_variables(v@, i as int) == Some((j as int, vars.deep_view()))
                && i <= j <= v@.len(),
            None => sp_set_variables(v@, i as int) is None,
        },
{
    let vars0: Vec<SetVariable> = Vec::new();
    proof {
        assert(vars0.deep_view() =~= Seq::<SetVariableModel>::empty());
    }
    let (j, vars) = vars_rest_at(v, i, vars0);
    if vars.len() > 0 {
        Some((j, vars))
    } else {
        None
    }
}

fn parse_line_at(v: &Vec<char>, i: usize) -> (r: Option<(usize, ParsedLine)>)
    requires
        i <= v@.len(),
    ensures
        match r {
            Some((j, pl)) => sp_parse_line(v@, i as int) == Some((j as int, pl@)) && i <= j
                <= v@.len(),
            None => sp_parse_line(v@, i as int) is None,
        },
{
    match command_at(v, i) {
        Some((j, c)) => Some((j, ParsedLine::Command(c))),
        None => match set_variables_at(v, i) {
            Some((j, vars)) => Some((j, ParsedLine::SetVariables(vars))),
            None => {
                if i < v.len() && v[i] == '\n' {
                    Some((i + 1, ParsedLine::Empty))
                } else {
                    None
                }
            },
        },
    }
}

/// A parser for the shell's line language.
pub struct Parser {}

impl Parser {
    /// Constructs a new `Parser`.
    pub fn new() -> (r: Parser) {
        Parser {  }
    }

    /// Parses `line` into a structured result that a shell can act on.
    ///
    /// A newline sentinel is appended before parsing; the parse succeeds
    /// exactly when the grammar consumes the whole line, trailing spaces
    /// aside. Any grammar violation yields an opaque error.
    pub fn parse(&self, line: String) -> (r: Result<ParsedLine, Error>)
        ensures
            match r {
                Ok(pl) => spec_parse(line@) == Some(pl@),
                Err(_) => spec_parse(line@) is None,
            },
    {
        let mut v = str_chars(line.as_str());
        v.push('\n');
        proof {
            assert(v@ =~= line@.push('\n'));
        }
        match parse_line_at(&v, 0) {
            None => Err(Error {  }),
            Some((j, pl)) => {
                let k = scan_space_x(&v, j);
                if k == v.len() || (k == v.len() - 1 && v[k] == '\n') {
                    Ok(pl)
                } else {
                    Err(Error {  })
                }
            },
        }
    }
}

/// The unconsumed tail of `v` from `j` on, as a string.
fn rest_of(v: &Vec<char>, j: usize) -> (s: String)
    requires
        j <= v@.len(),
    ensures
        s@ == v@.subrange(j as int, v@.len() as int),
{
    copy_range(v, j, v.len())
}

/// Parses a whole line at the start of `input`, returning the unconsumed
/// rest of the input and the parsed value.
pub fn parse_line(input: &str) -> (r: Result<(String, ParsedLine), Error>)
    ensures
        match r {
            Ok(p) => ({
                let m = sp_parse_line(input@, 0);
                m is Some && p.1@ == m->Some_0.1 && p.0@ == input@.subrange(
                    m->Some_0.0,
                    input@.len() as int,
                )
            }),
            Err(_) => sp_parse_line(input@, 0) is None,
        },
{
    let v = str_chars(input);
    match parse_line_at(&v, 0) {
        Some((j, pl)) => Ok((rest_of(&v, j), pl)),
        None => Err(Error {  }),
    }
}

/// Parses a command at the start of `input`: an assignment prefix, one or
/// more argument pieces, and any redirects.
pub fn command(input: &str) -> (r: Result<(String, ParsedLine), Error>)
    ensures
        match r {
            Ok(p) => ({
                let m = sp_command(input@, 0);
                m is Some && p.1@ == ParsedLineModel::Command(m->Some_0.1) && p.0@
                    == input@.subrange(m->Some_0.0, input@.len() as int)
            }),
            Err(_) => sp_command(input@, 0) is None,
        },
{
    let v = str_chars(input);
    match command_at(&v, 0) {
        Some((j, c)) => Ok((rest_of(&v, j), ParsedLine::Command(c))),
        None => Err(Error {  }),
    }
}

/// Parses one or more space-separated variable assignments.
pub fn set_variables(input: &str) -> (r: Result<(String, Vec<SetVariable>), Error>)
    ensures
        match r {
            Ok(p) => ({
                let m = sp_set_variables(input@, 0);
                m is Some && p.1.deep_view() == m->Some_0.1 && p.0@ == input@.subrange(
                    m->Some_0.0,
                    input@.len() as int,
                )
            }),
            Err(_) => sp_set_variables(input@, 0) is None,
        },
{
    let v = str_chars(input);
    match set_variables_at(&v, 0) {
        Some((j, vars)) => Ok((rest_of(&v, j), vars)),
        None => Err(Error {  }),
    }
}

/// Parses a single `name=value` assignment; a missing value makes an
/// empty shell string.
pub fn set_variable(input: &str) -> (r: Result<(String, SetVariable), Error>)
    ensures
        match r {
            Ok(p) => ({
                let m = sp_set_variable(input@, 0);
                m is Some && p.1@ == m->Some_0.1 && p.0@ == input@.subrange(
                    m->Some_0.0,
                    input@.len() as int,
                )
            }),
            Err(_) => sp_set_variable(input@, 0) is None,
        },
{
    let v = str_chars(input);
    match set_variable_at(&v, 0) {
        Some((j, sv)) => Ok((rest_of(&v, j), sv)),
        None => Err(Error {  }),
    }
}

/// Parses a piece: one or more adjacent fragments fused into one shell
/// string.
pub fn piece(input: &str) -> (r: Result<(String, ShellString), Error>)
    ensures
        match r {
            Ok(p) => ({
                let m = sp_piece(input@, 0);
                m is Some && p.1@ == m->Some_0.1 && p.0@ == input@.subrange(
                    m->Some_0.0,
                    input@.len() as int,
                )
            }),
            Err(_) => sp_piece(input@, 0) is None,
        },
{
    let v = str_chars(input);
    match piece_at(&v, 0) {
        Some((j, ps)) => Ok((rest_of(&v, j), ShellString::from(ps))),
        None => Err(Error {  }),
    }
}

/// Parses a glob fragment.
pub fn glob(input: &str) -> (r: Result<(String, ShellString), Error>)
    ensures
        match r {
            Ok(p) => ({
                let m = sp_glob(input@, 0);
                m is Some && p.1@ == m->Some_0.1 && p.0@ == input@.subrange(
                    m->Some_0.0,
                    input@.len() as int,
                )
            }),
            Err(_) => sp_glob(input@, 0) is None,
        },
{
    let v = str_chars(input);
    match glob_at(&v, 0) {
        Some((j, ps)) => Ok((rest_of(&v, j), ShellString::from(ps))),
        None => Err(Error {  }),
    }
}

/// Parses a path-like component; a leading `~` becomes a `HOME` variable
/// reference.
pub fn path(input: &str) -> (r: Result<(String, ShellString), Error>)
    ensures
        match r {
            Ok(p) => ({
                let m = sp_path(input@, 0);
                m is Some && p.1@ == m->Some_0.1 && p.0@ == input@.subrange(
                    m->Some_0.0,
                    input@.len() as int,
                )
            }),
            Err(_) => sp_path(input@, 0) is None,
        },
{
    let v = str_chars(input);
    match path_at(&v, 0) {
        Some((j, ps)) => Ok((rest_of(&v, j), ShellString::from(ps))),
        None => Err(Error {  }),
    }
}

/// Parses a double-quoted string with escapes and `${name}`
/// interpolations.
pub fn interpolated_string(input: &str) -> (r: Result<(String, ShellString), Error>)
    ensures
        match r {
            Ok(p) => ({
                let m = sp_interp_string(input@, 0);
                m is Some && p.1@ == m->Some_0.1 && p.0@ == input@.subrange(
                    m->Some_0.0,
                    input@.len() as int,
                )
            }),
            Err(_) => sp_interp_string(input@, 0) is None,
        },
{
    let v = str_chars(input);
    match interp_string_at(&v, 0) {
        Some((j, ps)) => Ok((rest_of(&v, j), ShellString::from(ps))),
        None => Err(Error {  }),
    }
}

/// Parses a single-quoted string; only `\\` and `\'` are escapes.
pub fn uninterpolated_string(input: &str) -> (r: Result<(String, ShellString), Error>)
    ensures
        match r {
            Ok(p) => ({
                let m = sp_uninterp_string(input@, 0);
                m is Some && p.1@ == m->Some_0.1 && p.0@ == input@.subrange(
                    m->Some_0.0,
                    input@.len() as int,
                )
            }),
            Err(_) => sp_uninterp_string(input@, 0) is None,
        },
{
    let v = str_chars(input);
    match uninterp_string_at(&v, 0) {
        Some((j, ps)) => Ok((rest_of(&v, j), ShellString::from(ps))),
        None => Err(Error {  }),
    }
}

/// Parses an I/O redirect, normalizing the operands to source and target.
pub fn redirect(input: &str) -> (r: Result<(String, Redirect), Error>)
    ensures
        match r {
            Ok(p) => ({
                let m = sp_redirect(input@, 0);
                m is Some && p.1@ == m->Some_0.1 && p.0@ == input@.subrange(
                    m->Some_0.0,
                    input@.len() as int,
                )
            }),
            Err(_) => sp_redirect(input@, 0) is None,
        },
{
    let v = str_chars(input);
    match redirect_at(&v, 0) {
        Some((j, rd)) => Ok((rest_of(&v, j), rd)),
        None => Err(Error {  }),
    }
}

} // verus!
