//! The ways in which a stub generator can be malformed.

use vstd::prelude::*;

verus! {

/// A malformed construct in a stub generator. Where a token is at fault, the
/// error carries it.
#[derive(Debug, PartialEq, Eq)]
pub enum SyntaxError {
    /// A token that begins no statement.
    UnexpectedToken(String),
    /// A `join(` that no later token closes.
    UnclosedJoin,
    /// The text of a `join(...)` that holds no argument.
    MalformedJoin(String),
    /// A `loop` without a count identifier.
    MissingLoopCount,
    /// A `loopline` without a count identifier.
    MissingLooplineCount,
    /// A `loop` that nothing follows.
    MissingLoopCommand,
    /// A `loop` followed by a token that begins no statement.
    UnexpectedLoopCommand(String),
    /// A variable without a type.
    MissingType(String),
    /// A variable whose type is not known.
    UnknownType(String),
    /// A pattern of the grammar that the pattern engine refuses.
    PatternRefused,
}

/// The model of a [`SyntaxError`].
pub ghost enum SyntaxErrorModel {
    UnexpectedToken(Seq<char>),
    UnclosedJoin,
    MalformedJoin(Seq<char>),
    MissingLoopCount,
    MissingLooplineCount,
    MissingLoopCommand,
    UnexpectedLoopCommand(Seq<char>),
    MissingType(Seq<char>),
    UnknownType(Seq<char>),
    PatternRefused,
}

impl View for SyntaxError {
    type V = SyntaxErrorModel;

    open spec fn view(&self) -> SyntaxErrorModel {
        match self {
            SyntaxError::UnexpectedToken(t) => SyntaxErrorModel::UnexpectedToken(t@),
            SyntaxError::UnclosedJoin => SyntaxErrorModel::UnclosedJoin,
            SyntaxError::MalformedJoin(t) => SyntaxErrorModel::MalformedJoin(t@),
            SyntaxError::MissingLoopCount => SyntaxErrorModel::MissingLoopCount,
            SyntaxError::MissingLooplineCount => SyntaxErrorModel::MissingLooplineCount,
            SyntaxError::MissingLoopCommand => SyntaxErrorModel::MissingLoopCommand,
            SyntaxError::UnexpectedLoopCommand(t) => SyntaxErrorModel::UnexpectedLoopCommand(t@),
            SyntaxError::MissingType(t) => SyntaxErrorModel::MissingType(t@),
            SyntaxError::UnknownType(t) => SyntaxErrorModel::UnknownType(t@),
            SyntaxError::PatternRefused => SyntaxErrorModel::PatternRefused,
        }
    }
}

/// Why a stub could not be rendered.
#[derive(Debug, PartialEq, Eq)]
pub enum RenderError {
    /// The named template is missing, or its substitution failed.
    Template(String),
    /// A command is nested deeper than there are index letters.
    NestingTooDeep,
}

/// The model of a [`RenderError`].
pub ghost enum RenderErrorModel {
    Template(Seq<char>),
    NestingTooDeep,
}

impl View for RenderError {
    type V = RenderErrorModel;

    open spec fn view(&self) -> RenderErrorModel {
        match self {
            RenderError::Template(name) => RenderErrorModel::Template(name@),
            RenderError::NestingTooDeep => RenderErrorModel::NestingTooDeep,
        }
    }
}

/// The model of a result whose value and error have models.
pub open spec fn result_view<T: View, E: View>(r: Result<T, E>) -> Result<T::V, E::V> {
    match r {
        Ok(v) => Ok(v@),
        Err(e) => Err(e@),
    }
}

} // verus!
