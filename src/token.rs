//! The token model shared by the parser and the renderer.

use vstd::prelude::*;

verus! {

/// One classified line of input.
#[derive(Debug, PartialEq, Eq)]
pub enum EnvToken {
    /// A blank or white-space-only line.
    Blank,
    /// A comment line: the text after the first `#`, without leading white space.
    Comment(String),
    /// A `key=value` line, split at the first `=`.
    Pair((String, String)),
}

/// Mathematical value of an [`EnvToken`].
pub enum TokenModel {
    Blank,
    Comment(Seq<char>),
    Pair(Seq<char>, Seq<char>),
}

impl View for EnvToken {
    type V = TokenModel;

    open spec fn view(&self) -> TokenModel {
        match self {
            EnvToken::Blank => TokenModel::Blank,
            EnvToken::Comment(t) => TokenModel::Comment(t@),
            EnvToken::Pair((k, v)) => TokenModel::Pair(k@, v@),
        }
    }
}

/// Mathematical value of a sequence of tokens.
pub open spec fn tokens_view(ts: Seq<EnvToken>) -> Seq<TokenModel> {
    ts.map_values(|t: EnvToken| t@)
}

/// Why a parse failed.
#[derive(Debug, PartialEq, Eq)]
pub enum ParseError {
    /// The input is empty or white space only.
    Empty,
    /// A line that is neither blank, a comment nor a pair: its zero-based
    /// index and its text.
    InvalidFormat((usize, String)),
}

/// Mathematical value of a [`ParseError`].
pub enum ErrorModel {
    Empty,
    InvalidFormat(int, Seq<char>),
}

impl View for ParseError {
    type V = ErrorModel;

    open spec fn view(&self) -> ErrorModel {
        match self {
            ParseError::Empty => ErrorModel::Empty,
            ParseError::InvalidFormat((i, t)) => ErrorModel::InvalidFormat(*i as int, t@),
        }
    }
}

/// Which optional lines the parser keeps as tokens.
#[derive(Debug, Clone, Copy, Default)]
pub struct ParseConfig {
    pub preserve_comments: bool,
    pub preserve_whitespace: bool,
}

} // verus!
