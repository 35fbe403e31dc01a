//! The shell line grammar, stated mathematically.
//!
//! Every production is a specification function from a character sequence
//! and a start position to the position after the consumed text and the
//! parsed value, or `None` where the production does not apply. The
//! executable parser is proved to return exactly these values.
use vstd::prelude::*;

use crate::strings::PieceModel;
use crate::strings::text_pieces;

verus! {

/// One `name=value` assignment, in model form.
pub struct SetVariableModel {
    pub name: Seq<char>,
    pub value: Seq<PieceModel>,
}

/// The direction of an I/O redirect.
#[derive(Clone, Copy, Debug, PartialEq, Eq, Structural)]
pub enum RedirectType {
    /// `<`: read the source into standard input.
    In,
    /// `>`: write output, truncating the destination.
    OutTruncate,
    /// `>>`: write output, appending to the destination.
    OutAppend,
}

/// One operand of a redirect, in model form.
pub enum RedirectNodeModel {
    File(Seq<PieceModel>),
    Descriptor(int),
}

/// A redirect with its operands normalized to source and destination.
pub struct RedirectModel {
    pub from: Option<RedirectNodeModel>,
    pub to: Option<RedirectNodeModel>,
    pub typ: RedirectType,
}

/// A command line: assignment prefix, arguments, redirects.
pub struct CommandModel {
    pub vars: Seq<SetVariableModel>,
    pub args: Seq<Seq<PieceModel>>,
    pub redirects: Seq<RedirectModel>,
}

/// The parse of one whole line, in model form.
pub enum ParsedLineModel {
    Empty,
    SetVariables(Seq<SetVariableModel>),
    Command(CommandModel),
}

/// Whether `c` separates words on a line: any whitespace character
/// except the newline and the carriage return, which end a command
/// instead. The set is Unicode's White_Space, spelled out.
pub open spec fn is_space_char(c: char) -> bool {
    let n = c as int;
    n == 0x09 || n == 0x0b || n == 0x0c || n == 0x20 || n == 0x85 || n == 0xa0 || n == 0x1680
        || (0x2000 <= n <= 0x200a) || n == 0x2028 || n == 0x2029 || n == 0x202f || n == 0x205f
        || n == 0x3000
}

/// Whether `c` is an ASCII decimal digit.
pub open spec fn is_digit_char(c: char) -> bool {
    48 <= c as int <= 57
}

/// Whether `c` may appear in a variable name: ASCII alphanumeric or `_`.
pub open spec fn is_var_char(c: char) -> bool {
    (97 <= c as int <= 122) || (65 <= c as int <= 90) || is_digit_char(c) || c == '_'
}

/// Whether `c` may appear in a path-like word: the path separator, ASCII
/// alphanumerics, and `~ - _ . =`.
pub open spec fn is_path_char(c: char) -> bool {
    c == '/' || (97 <= c as int <= 122) || (65 <= c as int <= 90) || is_digit_char(c) || c == '~'
        || c == '-' || c == '_' || c == '.' || c == '='
}

/// The first position at or after `i` that does not hold a space character.
pub open spec fn scan_space(s: Seq<char>, i: int) -> int
    decreases s.len() - i,
    when 0 <= i <= s.len()
{
    if i < s.len() && is_space_char(s[i]) {
        scan_space(s, i + 1)
    } else {
        i
    }
}

/// The first position at or after `i` that does not hold a variable-name
/// character.
pub open spec fn scan_var(s: Seq<char>, i: int) -> int
    decreases s.len() - i,
    when 0 <= i <= s.len()
{
    if i < s.len() && is_var_char(s[i]) {
        scan_var(s, i + 1)
    } else {
        i
    }
}

/// The first position at or after `i` that does not hold a path character.
pub open spec fn scan_path(s: Seq<char>, i: int) -> int
    decreases s.len() - i,
    when 0 <= i <= s.len()
{
    if i < s.len() && is_path_char(s[i]) {
        scan_path(s, i + 1)
    } else {
        i
    }
}

/// The first position at or after `i` that does not hold a digit.
pub open spec fn scan_digit(s: Seq<char>, i: int) -> int
    decreases s.len() - i,
    when 0 <= i <= s.len()
{
    if i < s.len() && is_digit_char(s[i]) {
        scan_digit(s, i + 1)
    } else {
        i
    }
}

/// The first position at or after `i` that holds `]` (or the end).
pub open spec fn scan_not_rbracket(s: Seq<char>, i: int) -> int
    decreases s.len() - i,
    when 0 <= i <= s.len()
{
    if i < s.len() && s[i] != ']' {
        scan_not_rbracket(s, i + 1)
    } else {
        i
    }
}

pub proof fn lemma_scan_space_bounds(s: Seq<char>, i: int)
    requires
        0 <= i <= s.len(),
    ensures
        i <= scan_space(s, i) <= s.len(),
        forall|k: int| i <= k < scan_space(s, i) ==> is_space_char(s[k]),
        scan_space(s, i) < s.len() ==> !is_space_char(s[scan_space(s, i)]),
    decreases s.len() - i,
{
    if i < s.len() && is_space_char(s[i]) {
        lemma_scan_space_bounds(s, i + 1);
    }
}

pub proof fn lemma_scan_var_bounds(s: Seq<char>, i: int)
    requires
        0 <= i <= s.len(),
    ensures
        i <= scan_var(s, i) <= s.len(),
        forall|k: int| i <= k < scan_var(s, i) ==> is_var_char(s[k]),
        scan_var(s, i) < s.len() ==> !is_var_char(s[scan_var(s, i)]),
    decreases s.len() - i,
{
    if i < s.len() && is_var_char(s[i]) {
        lemma_scan_var_bounds(s, i + 1);
    }
}

pub proof fn lemma_scan_path_bounds(s: Seq<char>, i: int)
    requires
        0 <= i <= s.len(),
    ensures
        i <= scan_path(s, i) <= s.len(),
        forall|k: int| i <= k < scan_path(s, i) ==> is_path_char(s[k]),
        scan_path(s, i) < s.len() ==> !is_path_char(s[scan_path(s, i)]),
    decreases s.len() - i,
{
    if i < s.len() && is_path_char(s[i]) {
        lemma_scan_path_bounds(s, i + 1);
    }
}

pub proof fn lemma_scan_digit_bounds(s: Seq<char>, i: int)
    requires
        0 <= i <= s.len(),
    ensures
        i <= scan_digit(s, i) <= s.len(),
        forall|k: int| i <= k < scan_digit(s, i) ==> is_digit_char(s[k]),
        scan_digit(s, i) < s.len() ==> !is_digit_char(s[scan_digit(s, i)]),
    decreases s.len() - i,
{
    if i < s.len() && is_digit_char(s[i]) {
        lemma_scan_digit_bounds(s, i + 1);
    }
}

pub proof fn lemma_scan_not_rbracket_bounds(s: Seq<char>, i: int)
    requires
        0 <= i <= s.len(),
    ensures
        i <= scan_not_rbracket(s, i) <= s.len(),
        forall|k: int| i <= k < scan_not_rbracket(s, i) ==> s[k] != ']',
        scan_not_rbracket(s, i) < s.len() ==> s[scan_not_rbracket(s, i)] == ']',
    decreases s.len() - i,
{
    if i < s.len() && s[i] != ']' {
        lemma_scan_not_rbracket_bounds(s, i + 1);
    }
}

/// A variable name: one alphabetic-or-underscore character, then any
/// variable-name characters.
pub open spec fn sp_var_name(s: Seq<char>, i: int) -> Option<(int, Seq<char>)>
    recommends
        0 <= i <= s.len(),
{
    if i < s.len() && is_var_char(s[i]) && !is_digit_char(s[i]) {
        let j = scan_var(s, i);
        Some((j, s.subrange(i, j)))
    } else {
        None
    }
}

pub proof fn lemma_sp_var_name_bounds(s: Seq<char>, i: int)
    requires
        0 <= i <= s.len(),
    ensures
        match sp_var_name(s, i) {
            Some((j, name)) => i < j <= s.len() && name.len() == j - i,
            None => true,
        },
{
    lemma_scan_var_bounds(s, i);
}

/// A path-like word. A word that starts with `~` stands for the home
/// directory: it becomes a `HOME` variable reference followed by the rest
/// of the word after the `~` as fixed text.
pub open spec fn sp_path(s: Seq<char>, i: int) -> Option<(int, Seq<PieceModel>)>
    recommends
        0 <= i <= s.len(),
{
    let j = scan_path(s, i);
    if j == i {
        None
    } else {
        let t = s.subrange(i, j);
        if t[0] == '~' {
            Some(
                (
                    j,
                    seq![
                        PieceModel::Variable("HOME"@),
                        PieceModel::Fixed(t.subrange(1, t.len() as int)),
                    ],
                ),
            )
        } else {
            Some((j, seq![PieceModel::Fixed(t)]))
        }
    }
}

pub proof fn lemma_sp_path_bounds(s: Seq<char>, i: int)
    requires
        0 <= i <= s.len(),
    ensures
        match sp_path(s, i) {
            Some((j, ps)) => i < j <= s.len(),
            None => true,
        },
{
    lemma_scan_path_bounds(s, i);
}

/// A glob fragment: `?`, `**`, `*`, `[]]`, `[!]]`, or a bracket class
/// `[...]` with at least one character between the brackets. The fragment
/// keeps its literal spelling.
pub open spec fn sp_glob(s: Seq<char>, i: int) -> Option<(int, Seq<PieceModel>)>
    recommends
        0 <= i <= s.len(),
{
    if i < s.len() && s[i] == '?' {
        Some((i + 1, seq![PieceModel::Glob(s.subrange(i, i + 1))]))
    } else if i + 2 <= s.len() && s[i] == '*' && s[i + 1] == '*' {
        Some((i + 2, seq![PieceModel::Glob(s.subrange(i, i + 2))]))
    } else if i < s.len() && s[i] == '*' {
        Some((i + 1, seq![PieceModel::Glob(s.subrange(i, i + 1))]))
    } else if i + 3 <= s.len() && s[i] == '[' && s[i + 1] == ']' && s[i + 2] == ']' {
        Some((i + 3, seq![PieceModel::Glob(s.subrange(i, i + 3))]))
    } else if i + 4 <= s.len() && s[i] == '[' && s[i + 1] == '!' && s[i + 2] == ']' && s[i + 3]
        == ']' {
        Some((i + 4, seq![PieceModel::Glob(s.subrange(i, i + 4))]))
    } else if i < s.len() && s[i] == '[' {
        let j = scan_not_rbracket(s, i + 1);
        if j > i + 1 && j < s.len() && s[j] == ']' {
            Some((j + 1, seq![PieceModel::Glob(s.subrange(i, j + 1))]))
        } else {
            None
        }
    } else {
        None
    }
}

pub proof fn lemma_sp_glob_bounds(s: Seq<char>, i: int)
    requires
        0 <= i <= s.len(),
    ensures
        match sp_glob(s, i) {
            Some((j, ps)) => i < j <= s.len(),
            None => true,
        },
{
    if i < s.len() && s[i] == '[' {
        lemma_scan_not_rbracket_bounds(s, i + 1);
    }
}

/// What a backslash escape inside a double-quoted string decodes to, if
/// it is one of the accepted escapes.
pub open spec fn sp_escape_interp(c: char) -> Option<char> {
    if c == '\\' {
        Some('\\')
    } else if c == '"' {
        Some('"')
    } else if c == '\'' {
        Some('\'')
    } else if c == 'n' {
        Some('\n')
    } else if c == 'r' {
        Some('\r')
    } else if c == 't' {
        Some('\t')
    } else {
        None
    }
}

/// The body of a double-quoted string, from `i` up to (not including) the
/// closing quote. `buf` is the fixed text gathered since the last piece
/// ended; `acc` the pieces finished so far. Escapes decode per
/// `sp_escape_interp`; `${name}` makes a variable piece; any other use of
/// `$` or `\` fails, as does a missing closing quote.
pub open spec fn sp_interp_body(s: Seq<char>, i: int, buf: Seq<char>, acc: Seq<PieceModel>) -> Option<
    (int, Seq<PieceModel>),
>
    decreases s.len() - i,
    when 0 <= i <= s.len()
    via sp_interp_body_dec
{
    if i >= s.len() {
        None
    } else if s[i] == '"' {
        Some((i, if buf.len() > 0 { acc.push(PieceModel::Fixed(buf)) } else { acc }))
    } else if s[i] == '$' {
        if i + 1 < s.len() && s[i + 1] == '{' {
            match sp_var_name(s, i + 2) {
                Some((j, name)) => {
                    if j < s.len() && s[j] == '}' {
                        let acc2 = if buf.len() > 0 {
                            acc.push(PieceModel::Fixed(buf))
                        } else {
                            acc
                        };
                        sp_interp_body(s, j + 1, Seq::empty(), acc2.push(PieceModel::Variable(name)))
                    } else {
                        None
                    }
                },
                None => None,
            }
        } else {
            None
        }
    } else if s[i] == '\\' {
        if i + 1 < s.len() {
            match sp_escape_interp(s[i + 1]) {
                Some(c) => sp_interp_body(s, i + 2, buf.push(c), acc),
                None => None,
            }
        } else {
            None
        }
    } else {
        sp_interp_body(s, i + 1, buf.push(s[i]), acc)
    }
}

#[via_fn]
proof fn sp_interp_body_dec(s: Seq<char>, i: int, buf: Seq<char>, acc: Seq<PieceModel>) {
    if 0 <= i && i + 2 <= s.len() {
        lemma_sp_var_name_bounds(s, i + 2);
    }
}

pub proof fn lemma_sp_interp_body_bounds(s: Seq<char>, i: int, buf: Seq<char>, acc: Seq<PieceModel>)
    requires
        0 <= i <= s.len(),
    ensures
        match sp_interp_body(s, i, buf, acc) {
            Some((j, ps)) => i <= j <= s.len() && j < s.len() && s[j] == '"',
            None => true,
        },
    decreases s.len() - i,
{
    if i >= s.len() {
    } else if s[i] == '"' {
    } else if s[i] == '$' {
        if i + 1 < s.len() && s[i + 1] == '{' {
            match sp_var_name(s, i + 2) {
                Some((j, name)) => {
                    lemma_sp_var_name_bounds(s, i + 2);
                    if j < s.len() && s[j] == '}' {
                        let acc2 = if buf.len() > 0 {
                            acc.push(PieceModel::Fixed(buf))
                        } else {
                            acc
                        };
                        lemma_sp_interp_body_bounds(
                            s,
                            j + 1,
                            Seq::empty(),
                            acc2.push(PieceModel::Variable(name)),
                        );
                    }
                },
                None => {},
            }
        }
    } else if s[i] == '\\' {
        if i + 1 < s.len() {
            match sp_escape_interp(s[i + 1]) {
                Some(c) => {
                    lemma_sp_interp_body_bounds(s, i + 2, buf.push(c), acc);
                },
                None => {},
            }
        }
    } else {
        lemma_sp_interp_body_bounds(s, i + 1, buf.push(s[i]), acc);
    }
}

/// A double-quoted string: `"` body `"`.
pub open spec fn sp_interp_string(s: Seq<char>, i: int) -> Option<(int, Seq<PieceModel>)>
    recommends
        0 <= i <= s.len(),
{
    if i < s.len() && s[i] == '"' {
        match sp_interp_body(s, i + 1, Seq::empty(), Seq::empty()) {
            Some((j, ps)) => if j < s.len() && s[j] == '"' {
                Some((j + 1, ps))
            } else {
                None
            },
            None => None,
        }
    } else {
        None
    }
}

pub proof fn lemma_sp_interp_string_bounds(s: Seq<char>, i: int)
    requires
        0 <= i <= s.len(),
    ensures
        match sp_interp_string(s, i) {
            Some((j, ps)) => i < j <= s.len(),
            None => true,
        },
{
    if i < s.len() && s[i] == '"' {
        lemma_sp_interp_body_bounds(s, i + 1, Seq::empty(), Seq::empty());
    }
}

/// The body of a single-quoted string, from `i` up to (not including) the
/// closing quote. Only `\\` and `\'` are escapes; every other character
/// is taken as it stands, and a backslash before anything else fails the
/// parse.
pub open spec fn sp_uq_body(s: Seq<char>, i: int, buf: Seq<char>) -> Option<(int, Seq<char>)>
    decreases s.len() - i,
    when 0 <= i <= s.len()
{
    if i >= s.len() {
        None
    } else if s[i] == '\'' {
        Some((i, buf))
    } else if s[i] == '\\' {
        if i + 1 < s.len() && (s[i + 1] == '\\' || s[i + 1] == '\'') {
            sp_uq_body(s, i + 2, buf.push(s[i + 1]))
        } else {
            None
        }
    } else {
        sp_uq_body(s, i + 1, buf.push(s[i]))
    }
}

pub proof fn lemma_sp_uq_body_bounds(s: Seq<char>, i: int, buf: Seq<char>)
    requires
        0 <= i <= s.len(),
    ensures
        match sp_uq_body(s, i, buf) {
            Some((j, t)) => i <= j < s.len() && s[j] == '\'',
            None => true,
        },
    decreases s.len() - i,
{
    if i >= s.len() {
    } else if s[i] == '\'' {
    } else if s[i] == '\\' {
        if i + 1 < s.len() && (s[i + 1] == '\\' || s[i + 1] == '\'') {
            lemma_sp_uq_body_bounds(s, i + 2, buf.push(s[i + 1]));
        }
    } else {
        lemma_sp_uq_body_bounds(s, i + 1, buf.push(s[i]));
    }
}

/// A single-quoted string: `'` body `'`. The decoded text makes one fixed
/// piece (none when it is empty).
pub open spec fn sp_uninterp_string(s: Seq<char>, i: int) -> Option<(int, Seq<PieceModel>)>
    recommends
        0 <= i <= s.len(),
{
    if i < s.len() && s[i] == '\'' {
        match sp_uq_body(s, i + 1, Seq::empty()) {
            Some((j, t)) => Some((j + 1, text_pieces(t))),
            None => None,
        }
    } else {
        None
    }
}

pub proof fn lemma_sp_uninterp_string_bounds(s: Seq<char>, i: int)
    requires
        0 <= i <= s.len(),
    ensures
        match sp_uninterp_string(s, i) {
            Some((j, ps)) => i < j <= s.len(),
            None => true,
        },
{
    if i < s.len() && s[i] == '\'' {
        lemma_sp_uq_body_bounds(s, i + 1, Seq::empty());
    }
}

/// One fragment of a piece: a path, a glob, a double-quoted string, or a
/// single-quoted string, tried in that order.
pub open spec fn sp_fragment(s: Seq<char>, i: int) -> Option<(int, Seq<PieceModel>)>
    recommends
        0 <= i <= s.len(),
{
    match sp_path(s, i) {
        Some(r) => Some(r),
        None => match sp_glob(s, i) {
            Some(r) => Some(r),
            None => match sp_interp_string(s, i) {
                Some(r) => Some(r),
                None => sp_uninterp_string(s, i),
            },
        },
    }
}

pub proof fn lemma_sp_fragment_bounds(s: Seq<char>, i: int)
    requires
        0 <= i <= s.len(),
    ensures
        match sp_fragment(s, i) {
            Some((j, ps)) => i < j <= s.len(),
            None => true,
        },
{
    lemma_sp_path_bounds(s, i);
    lemma_sp_glob_bounds(s, i);
    lemma_sp_interp_string_bounds(s, i);
    lemma_sp_uninterp_string_bounds(s, i);
}

/// The fragments of a piece after the first one: adjacent fragments with
/// no separating whitespace fuse, their pieces concatenated in order.
pub open spec fn sp_piece_rest(s: Seq<char>, i: int, acc: Seq<PieceModel>) -> (int, Seq<PieceModel>)
    decreases s.len() - i,
    when 0 <= i <= s.len()
    via sp_piece_rest_dec
{
    match sp_fragment(s, i) {
        Some((j, ps)) => sp_piece_rest(s, j, acc + ps),
        None => (i, acc),
    }
}

#[via_fn]
proof fn sp_piece_rest_dec(s: Seq<char>, i: int, acc: Seq<PieceModel>) {
    lemma_sp_fragment_bounds(s, i);
}

pub proof fn lemma_sp_piece_rest_bounds(s: Seq<char>, i: int, acc: Seq<PieceModel>)
    requires
        0 <= i <= s.len(),
    ensures
        i <= sp_piece_rest(s, i, acc).0 <= s.len(),
    decreases s.len() - i,
{
    lemma_sp_fragment_bounds(s, i);
    match sp_fragment(s, i) {
        Some((j, ps)) => {
            lemma_sp_piece_rest_bounds(s, j, acc + ps);
        },
        None => {},
    }
}

/// A piece: one or more fused fragments, not followed directly by `<`.
pub open spec fn sp_piece(s: Seq<char>, i: int) -> Option<(int, Seq<PieceModel>)>
    recommends
        0 <= i <= s.len(),
{
    match sp_fragment(s, i) {
        None => None,
        Some((j, ps)) => {
            let rest = sp_piece_rest(s, j, ps);
            if rest.0 < s.len() && s[rest.0] == '<' {
                None
            } else {
                Some(rest)
            }
        },
    }
}

pub proof fn lemma_sp_piece_bounds(s: Seq<char>, i: int)
    requires
        0 <= i <= s.len(),
    ensures
        match sp_piece(s, i) {
            Some((j, ps)) => i < j <= s.len(),
            None => true,
        },
{
    lemma_sp_fragment_bounds(s, i);
    match sp_fragment(s, i) {
        Some((j, ps)) => {
            lemma_sp_piece_rest_bounds(s, j, ps);
        },
        None => {},
    }
}

/// A variable assignment: a variable name, `=`, and an optional piece.
/// A missing piece makes an empty value.
pub open spec fn sp_set_variable(s: Seq<char>, i: int) -> Option<(int, SetVariableModel)>
    recommends
        0 <= i <= s.len(),
{
    match sp_var_name(s, i) {
        None => None,
        Some((j, name)) => {
            if j < s.len() && s[j] == '=' {
                match sp_piece(s, j + 1) {
                    Some((k, ps)) => Some((k, SetVariableModel { name, value: ps })),
                    None => Some((j + 1, SetVariableModel { name, value: Seq::empty() })),
                }
            } else {
                None
            }
        },
    }
}

pub proof fn lemma_sp_set_variable_bounds(s: Seq<char>, i: int)
    requires
        0 <= i <= s.len(),
    ensures
        match sp_set_variable(s, i) {
            Some((j, sv)) => i < j <= s.len(),
            None => true,
        },
{
    lemma_sp_var_name_bounds(s, i);
    match sp_var_name(s, i) {
        Some((j, name)) => {
            if j < s.len() && s[j] == '=' {
                lemma_sp_piece_bounds(s, j + 1);
            }
        },
        None => {},
    }
}

/// The numeric value of a run of decimal digits.
pub open spec fn sp_digits_val(t: Seq<char>) -> int
    decreases t.len(),
{
    if t.len() == 0 {
        0
    } else {
        sp_digits_val(t.drop_last()) * 10 + (t.last() as int - 48)
    }
}

/// The largest value a redirect descriptor may hold.
pub open spec fn descriptor_limit() -> int {
    0x7fff_ffff
}

/// The operand to the left of a redirect operator: a path-like word as a
/// file, or a run of digits as a descriptor; or nothing.
pub open spec fn sp_redirect_node_left(s: Seq<char>, i: int) -> (int, Option<RedirectNodeModel>)
    recommends
        0 <= i <= s.len(),
{
    match sp_path(s, i) {
        Some((j, ps)) => (j, Some(RedirectNodeModel::File(ps))),
        None => {
            let j = scan_digit(s, i);
            if j > i && sp_digits_val(s.subrange(i, j)) <= descriptor_limit() {
                (j, Some(RedirectNodeModel::Descriptor(sp_digits_val(s.subrange(i, j)))))
            } else {
                (i, None)
            }
        },
    }
}

/// The operand to the right of a redirect operator: a path-like word as a
/// file, or `&` and a run of digits as a descriptor; or nothing.
pub open spec fn sp_redirect_node_right(s: Seq<char>, i: int) -> (int, Option<RedirectNodeModel>)
    recommends
        0 <= i <= s.len(),
{
    match sp_path(s, i) {
        Some((j, ps)) => (j, Some(RedirectNodeModel::File(ps))),
        None => {
            if i < s.len() && s[i] == '&' {
                let j = scan_digit(s, i + 1);
                if j > i + 1 && sp_digits_val(s.subrange(i + 1, j)) <= descriptor_limit() {
                    (j, Some(RedirectNodeModel::Descriptor(sp_digits_val(s.subrange(i + 1, j)))))
                } else {
                    (i, None)
                }
            } else {
                (i, None)
            }
        },
    }
}

/// A redirect operator, longest spelling first: `<`, `>>`, `>`.
pub open spec fn sp_redirect_type(s: Seq<char>, i: int) -> Option<(int, RedirectType)>
    recommends
        0 <= i <= s.len(),
{
    if i < s.len() && s[i] == '<' {
        Some((i + 1, RedirectType::In))
    } else if i + 2 <= s.len() && s[i] == '>' && s[i + 1] == '>' {
        Some((i + 2, RedirectType::OutAppend))
    } else if i < s.len() && s[i] == '>' {
        Some((i + 1, RedirectType::OutTruncate))
    } else {
        None
    }
}

/// A redirect: optional left operand, operator, optional right operand.
/// For `<` the right operand is the source (`from`) and the left the
/// target; for `>` and `>>` the left is the source and the right the
/// destination.
pub open spec fn sp_redirect(s: Seq<char>, i: int) -> Option<(int, RedirectModel)>
    recommends
        0 <= i <= s.len(),
{
    let left = sp_redirect_node_left(s, i);
    match sp_redirect_type(s, left.0) {
        None => None,
        Some((i2, t)) => {
            let right = sp_redirect_node_right(s, i2);
            match t {
                RedirectType::In => Some(
                    (right.0, RedirectModel { from: right.1, to: left.1, typ: t }),
                ),
                _ => Some((right.0, RedirectModel { from: left.1, to: right.1, typ: t })),
            }
        },
    }
}

pub proof fn lemma_sp_redirect_node_left_bounds(s: Seq<char>, i: int)
    requires
        0 <= i <= s.len(),
    ensures
        i <= sp_redirect_node_left(s, i).0 <= s.len(),
{
    lemma_sp_path_bounds(s, i);
    lemma_scan_digit_bounds(s, i);
}

pub proof fn lemma_sp_redirect_node_right_bounds(s: Seq<char>, i: int)
    requires
        0 <= i <= s.len(),
    ensures
        i <= sp_redirect_node_right(s, i).0 <= s.len(),
{
    lemma_sp_path_bounds(s, i);
    if i < s.len() {
        lemma_scan_digit_bounds(s, i + 1);
    }
}

pub proof fn lemma_sp_redirect_bounds(s: Seq<char>, i: int)
    requires
        0 <= i <= s.len(),
    ensures
        match sp_redirect(s, i) {
            Some((j, r)) => i < j <= s.len(),
            None => true,
        },
{
    lemma_sp_redirect_node_left_bounds(s, i);
    let left = sp_redirect_node_left(s, i);
    match sp_redirect_type(s, left.0) {
        None => {},
        Some((i2, t)) => {
            lemma_sp_redirect_node_right_bounds(s, i2);
        },
    }
}

/// Zero or more variable assignments, each optionally preceded by spaces,
/// appended to `acc`. Stops before the first word that is not an
/// assignment, consuming none of the spaces before it.
pub open spec fn sp_vars_rest(s: Seq<char>, i: int, acc: Seq<SetVariableModel>) -> (
    int,
    Seq<SetVariableModel>,
)
    decreases s.len() - i,
    when 0 <= i <= s.len()
    via sp_vars_rest_dec
{
    let j = scan_space(s, i);
    match sp_set_variable(s, j) {
        Some((k, sv)) => sp_vars_rest(s, k, acc.push(sv)),
        None => (i, acc),
    }
}

#[via_fn]
proof fn sp_vars_rest_dec(s: Seq<char>, i: int, acc: Seq<SetVariableModel>) {
    lemma_scan_space_bounds(s, i);
    lemma_sp_set_variable_bounds(s, scan_space(s, i));
}

pub proof fn lemma_sp_vars_rest_bounds(s: Seq<char>, i: int, acc: Seq<SetVariableModel>)
    requires
        0 <= i <= s.len(),
    ensures
        i <= sp_vars_rest(s, i, acc).0 <= s.len(),
    decreases s.len() - i,
{
    lemma_scan_space_bounds(s, i);
    let j = scan_space(s, i);
    lemma_sp_set_variable_bounds(s, j);
    match sp_set_variable(s, j) {
        Some((k, sv)) => {
            lemma_sp_vars_rest_bounds(s, k, acc.push(sv));
        },
        None => {},
    }
}

/// Zero or more further pieces, each optionally preceded by spaces.
pub open spec fn sp_pieces_rest(s: Seq<char>, i: int, acc: Seq<Seq<PieceModel>>) -> (
    int,
    Seq<Seq<PieceModel>>,
)
    decreases s.len() - i,
    when 0 <= i <= s.len()
    via sp_pieces_rest_dec
{
    let j = scan_space(s, i);
    match sp_piece(s, j) {
        Some((k, ps)) => sp_pieces_rest(s, k, acc.push(ps)),
        None => (i, acc),
    }
}

#[via_fn]
proof fn sp_pieces_rest_dec(s: Seq<char>, i: int, acc: Seq<Seq<PieceModel>>) {
    lemma_scan_space_bounds(s, i);
    lemma_sp_piece_bounds(s, scan_space(s, i));
}

pub proof fn lemma_sp_pieces_rest_bounds(s: Seq<char>, i: int, acc: Seq<Seq<PieceModel>>)
    requires
        0 <= i <= s.len(),
    ensures
        i <= sp_pieces_rest(s, i, acc).0 <= s.len(),
    decreases s.len() - i,
{
    lemma_scan_space_bounds(s, i);
    let j = scan_space(s, i);
    lemma_sp_piece_bounds(s, j);
    match sp_piece(s, j) {
        Some((k, ps)) => {
            lemma_sp_pieces_rest_bounds(s, k, acc.push(ps));
        },
        None => {},
    }
}

/// Zero or more redirects, each optionally preceded by spaces.
pub open spec fn sp_redirects_rest(s: Seq<char>, i: int, acc: Seq<RedirectModel>) -> (
    int,
    Seq<RedirectModel>,
)
    decreases s.len() - i,
    when 0 <= i <= s.len()
    via sp_redirects_rest_dec
{
    let j = scan_space(s, i);
    match sp_redirect(s, j) {
        Some((k, r)) => sp_redirects_rest(s, k, acc.push(r)),
        None => (i, acc),
    }
}

#[via_fn]
proof fn sp_redirects_rest_dec(s: Seq<char>, i: int, acc: Seq<RedirectModel>) {
    lemma_scan_space_bounds(s, i);
    lemma_sp_redirect_bounds(s, scan_space(s, i));
}

pub proof fn lemma_sp_redirects_rest_bounds(s: Seq<char>, i: int, acc: Seq<RedirectModel>)
    requires
        0 <= i <= s.len(),
    ensures
        i <= sp_redirects_rest(s, i, acc).0 <= s.len(),
    decreases s.len() - i,
{
    lemma_scan_space_bounds(s, i);
    let j = scan_space(s, i);
    lemma_sp_redirect_bounds(s, j);
    match sp_redirect(s, j) {
        Some((k, r)) => {
            lemma_sp_redirects_rest_bounds(s, k, acc.push(r));
        },
        None => {},
    }
}

/// A command: an assignment prefix, one or more argument pieces, and any
/// redirects, all space-separated.
pub open spec fn sp_command(s: Seq<char>, i: int) -> Option<(int, CommandModel)>
    recommends
        0 <= i <= s.len(),
{
    let vars = sp_vars_rest(s, i, Seq::empty());
    let j = scan_space(s, vars.0);
    match sp_piece(s, j) {
        None => None,
        Some((j2, p0)) => {
            let args = sp_pieces_rest(s, j2, seq![p0]);
            let redirects = sp_redirects_rest(s, args.0, Seq::empty());
            Some(
                (
                    redirects.0,
                    CommandModel { vars: vars.1, args: args.1, redirects: redirects.1 },
                ),
            )
        },
    }
}

/// One or more variable assignments and nothing else.
pub open spec fn sp_set_variables(s: Seq<char>, i: int) -> Option<(int, Seq<SetVariableModel>)>
    recommends
        0 <= i <= s.len(),
{
    let vars = sp_vars_rest(s, i, Seq::empty());
    if vars.1.len() > 0 {
        Some((vars.0, vars.1))
    } else {
        None
    }
}

/// A whole line: a command, else assignments, else an empty line.
pub open spec fn sp_parse_line(s: Seq<char>, i: int) -> Option<(int, ParsedLineModel)>
    recommends
        0 <= i <= s.len(),
{
    match sp_command(s, i) {
        Some((j, c)) => Some((j, ParsedLineModel::Command(c))),
        None => match sp_set_variables(s, i) {
            Some((j, vars)) => Some((j, ParsedLineModel::SetVariables(vars))),
            None => if i < s.len() && s[i] == '\n' {
                Some((i + 1, ParsedLineModel::Empty))
            } else {
                None
            },
        },
    }
}

pub proof fn lemma_sp_parse_line_bounds(s: Seq<char>, i: int)
    requires
        0 <= i <= s.len(),
    ensures
        match sp_parse_line(s, i) {
            Some((j, pl)) => i <= j <= s.len(),
            None => true,
        },
{
    lemma_sp_vars_rest_bounds(s, i, Seq::empty());
    let vars = sp_vars_rest(s, i, Seq::empty());
    lemma_scan_space_bounds(s, vars.0);
    let j = scan_space(s, vars.0);
    lemma_sp_piece_bounds(s, j);
    match sp_piece(s, j) {
        Some((j2, p0)) => {
            lemma_sp_pieces_rest_bounds(s, j2, seq![p0]);
            lemma_sp_redirects_rest_bounds(s, sp_pieces_rest(s, j2, seq![p0]).0, Seq::empty());
        },
        None => {},
    }
}

/// The parse of one input line: a newline sentinel is appended, the line
/// grammar is applied from the start, and only spaces may stand between
/// what it consumed and the sentinel. `None` is a parse error.
pub open spec fn spec_parse(line: Seq<char>) -> Option<ParsedLineModel> {
    let s = line.push('\n');
    match sp_parse_line(s, 0) {
        None => None,
        Some((j, pl)) => {
            let k = scan_space(s, j);
            if k == s.len() || (k == s.len() - 1 && s[k] == '\n') {
                Some(pl)
            } else {
                None
            }
        },
    }
}

} // verus!
