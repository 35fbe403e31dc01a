//! Shell string representation.
//!
//! A string in a shell is a sequence of typed pieces: fixed text, glob
//! fragments, and variable references that are only resolved when the
//! string is expanded against an environment.
use vstd::prelude::*;

verus! {

/// The mathematical model of a piece: the same three shapes, over
/// sequences of characters.
pub enum PieceModel {
    Fixed(Seq<char>),
    Glob(Seq<char>),
    Variable(Seq<char>),
}

/// A component of a composite shell string.
#[derive(Clone, Debug, PartialEq)]
pub enum Piece {
    /// A fixed string, used verbatim.
    Fixed(String),
    /// A glob fragment (`?`, `*`, `**`, `[...]`, `[!...]`), matched against
    /// the filesystem when the whole string is expanded.
    Glob(String),
    /// A shell variable, looked up in the environment at expansion time.
    Variable(String),
}

impl View for Piece {
    type V = PieceModel;

    open spec fn view(&self) -> PieceModel {
        match self {
            Piece::Fixed(s) => PieceModel::Fixed(s@),
            Piece::Glob(s) => PieceModel::Glob(s@),
            Piece::Variable(s) => PieceModel::Variable(s@),
        }
    }
}

impl DeepView for Piece {
    type V = PieceModel;

    open spec fn deep_view(&self) -> PieceModel {
        self.view()
    }
}

/// The pieces that a run of text makes: no pieces for empty text, one
/// fixed piece otherwise.
pub open spec fn text_pieces(t: Seq<char>) -> Seq<PieceModel> {
    if t.len() == 0 {
        Seq::empty()
    } else {
        seq![PieceModel::Fixed(t)]
    }
}

/// A string in a shell: an ordered sequence of pieces. Concatenation
/// order is the rendering order. A shell string with no pieces renders
/// to the empty string.
#[derive(Clone, Debug, PartialEq)]
pub struct ShellString {
    pieces: Vec<Piece>,
}

impl View for ShellString {
    type V = Seq<PieceModel>;

    closed spec fn view(&self) -> Seq<PieceModel> {
        self.pieces.deep_view()
    }
}

impl DeepView for ShellString {
    type V = Seq<PieceModel>;

    open spec fn deep_view(&self) -> Seq<PieceModel> {
        self.view()
    }
}

impl ShellString {
    /// The pieces of this `ShellString`, in rendering order.
    pub fn iter(&self) -> (r: &Vec<Piece>)
        ensures
            r.deep_view() == self@,
    {
        &self.pieces
    }

    /// Appends the pieces of `rhs` after the pieces of `self`.
    pub fn concat(self, rhs: ShellString) -> (r: ShellString)
        ensures
            r@ == self@ + rhs@,
    {
        let mut pieces = self.pieces;
        let mut rhs_pieces = rhs.pieces;
        pieces.append(&mut rhs_pieces);
        proof {
            assert(pieces.deep_view() =~= self.pieces.deep_view() + rhs.pieces.deep_view());
        }
        ShellString { pieces }
    }
}

impl<'a> From<&'a str> for ShellString {
    /// One fixed piece holding `value`; empty text makes an empty shell
    /// string.
    fn from(value: &'a str) -> (r: Self)
        ensures
            r@ == text_pieces(value@),
    {
        if value.is_empty() {
            ShellString { pieces: Vec::new() }
        } else {
            let pieces = vec![Piece::Fixed(value.to_owned())];
            proof {
                assert(pieces.deep_view() =~= text_pieces(value@));
            }
            ShellString { pieces }
        }
    }
}

impl<'a> vstd::std_specs::convert::FromSpecImpl<&'a str> for ShellString {
    open spec fn obeys_from_spec() -> bool {
        false
    }

    open spec fn from_spec(value: &'a str) -> Self {
        arbitrary()
    }
}

impl From<String> for ShellString {
    /// One fixed piece holding `value`; empty text makes an empty shell
    /// string.
    fn from(value: String) -> (r: Self)
        ensures
            r@ == text_pieces(value@),
    {
        if value.as_str().is_empty() {
            ShellString { pieces: Vec::new() }
        } else {
            let pieces = vec![Piece::Fixed(value)];
            proof {
                assert(pieces.deep_view() =~= text_pieces(value@));
            }
            ShellString { pieces }
        }
    }
}

impl vstd::std_specs::convert::FromSpecImpl<String> for ShellString {
    open spec fn obeys_from_spec() -> bool {
        false
    }

    open spec fn from_spec(value: String) -> Self {
        arbitrary()
    }
}

impl From<Piece> for ShellString {
    /// A shell string of exactly the given piece.
    fn from(value: Piece) -> (r: Self)
        ensures
            r@ == seq![value@],
    {
        let pieces = vec![value];
        proof {
            assert(pieces.deep_view() =~= seq![value@]);
        }
        ShellString { pieces }
    }
}

impl vstd::std_specs::convert::FromSpecImpl<Piece> for ShellString {
    open spec fn obeys_from_spec() -> bool {
        false
    }

    open spec fn from_spec(value: Piece) -> Self {
        arbitrary()
    }
}

impl From<Vec<Piece>> for ShellString {
    /// A shell string of exactly the given pieces, in order.
    fn from(value: Vec<Piece>) -> (r: Self)
        ensures
            r@ == value.deep_view(),
    {
        ShellString { pieces: value }
    }
}

impl vstd::std_specs::convert::FromSpecImpl<Vec<Piece>> for ShellString {
    open spec fn obeys_from_spec() -> bool {
        false
    }

    open spec fn from_spec(value: Vec<Piece>) -> Self {
        arbitrary()
    }
}

impl<'a> From<&'a str> for Piece {
    /// A fixed piece holding `value` verbatim.
    fn from(value: &'a str) -> (r: Self)
        ensures
            r@ == PieceModel::Fixed(value@),
    {
        Piece::Fixed(value.to_owned())
    }
}

impl<'a> vstd::std_specs::convert::FromSpecImpl<&'a str> for Piece {
    open spec fn obeys_from_spec() -> bool {
        false
    }

    open spec fn from_spec(value: &'a str) -> Self {
        arbitrary()
    }
}

impl From<String> for Piece {
    /// A fixed piece holding `value` verbatim.
    fn from(value: String) -> (r: Self)
        ensures
            r@ == PieceModel::Fixed(value@),
    {
        Piece::Fixed(value)
    }
}

impl vstd::std_specs::convert::FromSpecImpl<String> for Piece {
    open spec fn obeys_from_spec() -> bool {
        false
    }

    open spec fn from_spec(value: String) -> Self {
        arbitrary()
    }
}

} // verus!
