//! Error kinds of parsing and template resolution.

use vstd::prelude::*;

verus! {

/// What can go wrong while a source file is parsed or a page is assembled.
///
/// `NotATag`, `NotAnExpression` and `NotALiteral` are refusals: the parser
/// that reports one found no construct of its kind at the scan position, and
/// the dispatcher goes on to the next kind.
#[derive(Debug)]
pub enum BuildError {
    MatchedDirectory(String),
    InvalidSyntax(String),
    NoTagName,
    NoClosingTag,
    NoSelectorList,
    BadSelectorList,
    NotATag,
    NotAnExpression,
    BracketMismatch,
    NotALiteral,
    ByteStringNotSupported,
    InvalidCharacterCode(String),
    UnexpectedEOF,
}

/// Any failure the library reports.
#[derive(Debug)]
pub enum SiteError {
    /// A regular expression was rejected by the regex engine.
    RegexError(regex::Error),
    /// The source text is malformed.
    BuildError(BuildError),
    /// A referenced template could not be loaded; the payload is its path.
    LoadError(String),
    /// Parent templates are nested deeper than the resolver follows.
    InheritanceTooDeep,
}

/// Mathematical model of a [`BuildError`].
pub enum BuildErrorView {
    MatchedDirectory(Seq<char>),
    InvalidSyntax(Seq<char>),
    NoTagName,
    NoClosingTag,
    NoSelectorList,
    BadSelectorList,
    NotATag,
    NotAnExpression,
    BracketMismatch,
    NotALiteral,
    ByteStringNotSupported,
    InvalidCharacterCode(Seq<char>),
    UnexpectedEOF,
}

/// Mathematical model of a [`SiteError`]. The cause that the regex engine gives
/// for rejecting a pattern is not modelled.
pub enum ErrorView {
    RegexError,
    BuildError(BuildErrorView),
    LoadError(Seq<char>),
    InheritanceTooDeep,
}

impl View for BuildError {
    type V = BuildErrorView;

    open spec fn view(&self) -> BuildErrorView {
        match *self {
            BuildError::MatchedDirectory(p) => BuildErrorView::MatchedDirectory(p@),
            BuildError::InvalidSyntax(s) => BuildErrorView::InvalidSyntax(s@),
            BuildError::NoTagName => BuildErrorView::NoTagName,
            BuildError::NoClosingTag => BuildErrorView::NoClosingTag,
            BuildError::NoSelectorList => BuildErrorView::NoSelectorList,
            BuildError::BadSelectorList => BuildErrorView::BadSelectorList,
            BuildError::NotATag => BuildErrorView::NotATag,
            BuildError::NotAnExpression => BuildErrorView::NotAnExpression,
            BuildError::BracketMismatch => BuildErrorView::BracketMismatch,
            BuildError::NotALiteral => BuildErrorView::NotALiteral,
            BuildError::ByteStringNotSupported => BuildErrorView::ByteStringNotSupported,
            BuildError::InvalidCharacterCode(s) => BuildErrorView::InvalidCharacterCode(s@),
            BuildError::UnexpectedEOF => BuildErrorView::UnexpectedEOF,
        }
    }
}

impl View for SiteError {
    type V = ErrorView;

    open spec fn view(&self) -> ErrorView {
        match *self {
            SiteError::RegexError(_) => ErrorView::RegexError,
            SiteError::BuildError(e) => ErrorView::BuildError(e@),
            SiteError::LoadError(p) => ErrorView::LoadError(p@),
            SiteError::InheritanceTooDeep => ErrorView::InheritanceTooDeep,
        }
    }
}

/// Whether an error is a refusal: the word of a parser that found no
/// construct of its kind at the scan position.
pub open spec fn is_refusal(e: ErrorView) -> bool {
    ||| e == ErrorView::BuildError(BuildErrorView::NotATag)
    ||| e == ErrorView::BuildError(BuildErrorView::NotAnExpression)
    ||| e == ErrorView::BuildError(BuildErrorView::NotALiteral)
}

/// Shorthand for the model of a malformed-source error.
pub open spec fn build_err(e: BuildErrorView) -> ErrorView {
    ErrorView::BuildError(e)
}

impl BuildError {
    /// A short description of the error, for messages.
    pub fn describe(&self) -> (res: String)
        ensures
            res@ == describe_build_error(self@),
    {
        match self {
            BuildError::MatchedDirectory(_) => "path matches a directory".to_owned(),
            BuildError::InvalidSyntax(_) => "invalid syntax".to_owned(),
            BuildError::NoTagName => "tag has no name".to_owned(),
            BuildError::NoClosingTag => "tag is never closed".to_owned(),
            BuildError::NoSelectorList => "selector list is missing".to_owned(),
            BuildError::BadSelectorList => "selector list is malformed".to_owned(),
            BuildError::NotATag => "not a tag".to_owned(),
            BuildError::NotAnExpression => "not an expression".to_owned(),
            BuildError::BracketMismatch => "unbalanced braces".to_owned(),
            BuildError::NotALiteral => "not a literal".to_owned(),
            BuildError::ByteStringNotSupported => "byte escape in a text literal".to_owned(),
            BuildError::InvalidCharacterCode(_) => "invalid character code".to_owned(),
            BuildError::UnexpectedEOF => "unexpected end of input".to_owned(),
        }
    }
}

/// The text of [`BuildError::describe`].
pub open spec fn describe_build_error(e: BuildErrorView) -> Seq<char> {
    match e {
        BuildErrorView::MatchedDirectory(_) => "path matches a directory"@,
        BuildErrorView::InvalidSyntax(_) => "invalid syntax"@,
        BuildErrorView::NoTagName => "tag has no name"@,
        BuildErrorView::NoClosingTag => "tag is never closed"@,
        BuildErrorView::NoSelectorList => "selector list is missing"@,
        BuildErrorView::BadSelectorList => "selector list is malformed"@,
        BuildErrorView::NotATag => "not a tag"@,
        BuildErrorView::NotAnExpression => "not an expression"@,
        BuildErrorView::BracketMismatch => "unbalanced braces"@,
        BuildErrorView::NotALiteral => "not a literal"@,
        BuildErrorView::ByteStringNotSupported => "byte escape in a text literal"@,
        BuildErrorView::InvalidCharacterCode(_) => "invalid character code"@,
        BuildErrorView::UnexpectedEOF => "unexpected end of input"@,
    }
}

} // verus!
