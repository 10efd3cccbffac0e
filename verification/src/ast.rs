//! The parsed form of a template document: a sequence of lines, each either
//! literal text or an `insert` directive, together with the error taxonomy
//! shared by the parser and the evaluator.

use vstd::prelude::*;

verus! {

/// Spec-level mirror of [`Path`]: the text of a path operand, tagged by
/// whether it was taken verbatim from the source (`Path`) or had to be
/// escape-decoded into fresh storage (`PathBuf`).
pub enum PathModel {
    Path(Seq<char>),
    PathBuf(Seq<char>),
}

/// Spec-level mirror of [`Insert`].
pub enum InsertModel {
    Var(Seq<Seq<char>>),
    Path(PathModel),
}

/// Spec-level mirror of [`Command`].
pub enum CommandModel {
    Insert(InsertModel),
}

/// Spec-level mirror of [`Line`].
pub enum LineModel {
    Raw(Seq<char>),
    Command(CommandModel),
}

/// A path operand of an `insert` directive. `Path` holds text that needed no
/// escape decoding (the zero-copy parse alternatives); `PathBuf` holds text
/// that was rebuilt by decoding escape sequences.
#[derive(Debug, PartialEq, Eq)]
pub enum Path {
    Path(String),
    PathBuf(String),
}

/// One identifier of a dotted variable path; never empty and never contains
/// `.`, space or a line-ending character.
#[derive(Debug, PartialEq, Eq)]
pub struct Ident(pub String);

/// A dotted chain of identifiers, such as `self.title`; never empty.
#[derive(Debug, PartialEq, Eq)]
pub struct Var(pub Vec<Ident>);

/// The operand of an `insert` directive: a file path or a variable path.
#[derive(Debug, PartialEq, Eq)]
pub enum Insert {
    Var(Var),
    Path(Path),
}

/// A directive; `insert` is the only one the language has.
#[derive(Debug, PartialEq, Eq)]
pub enum Command {
    Insert(Insert),
}

/// One parsed line of a template document.
#[derive(Debug, PartialEq, Eq)]
pub enum Line {
    Raw(String),
    Command(Command),
}

/// Everything that can go wrong in the library: a malformed template, an
/// unrecognized escape code, or a variable path the context cannot resolve.
#[derive(Debug, Clone, Copy, PartialEq, Eq, Structural)]
pub enum TemplateError {
    SyntaxError,
    InvalidEscape,
    UnknownVariable,
}

impl View for Path {
    type V = PathModel;

    open spec fn view(&self) -> PathModel {
        match self {
            Path::Path(s) => PathModel::Path(s@),
            Path::PathBuf(s) => PathModel::PathBuf(s@),
        }
    }
}

impl View for Ident {
    type V = Seq<char>;

    open spec fn view(&self) -> Seq<char> {
        self.0@
    }
}

impl View for Var {
    type V = Seq<Seq<char>>;

    open spec fn view(&self) -> Seq<Seq<char>> {
        self.0@.map_values(|id: Ident| id@)
    }
}

impl View for Insert {
    type V = InsertModel;

    open spec fn view(&self) -> InsertModel {
        match self {
            Insert::Var(v) => InsertModel::Var(v@),
            Insert::Path(p) => InsertModel::Path(p@),
        }
    }
}

impl View for Command {
    type V = CommandModel;

    open spec fn view(&self) -> CommandModel {
        match self {
            Command::Insert(i) => CommandModel::Insert(i@),
        }
    }
}

impl View for Line {
    type V = LineModel;

    open spec fn view(&self) -> LineModel {
        match self {
            Line::Raw(s) => LineModel::Raw(s@),
            Line::Command(c) => LineModel::Command(c@),
        }
    }
}

impl PathModel {
    /// The path text, whichever variant holds it.
    pub open spec fn text(self) -> Seq<char> {
        match self {
            PathModel::Path(s) => s,
            PathModel::PathBuf(s) => s,
        }
    }
}

impl Path {
    /// The path text, whichever variant holds it.
    pub fn as_str(&self) -> (r: &str)
        ensures
            r@ == self@.text(),
    {
        match self {
            Path::Path(s) => s.as_str(),
            Path::PathBuf(s) => s.as_str(),
        }
    }
}

} // verus!
