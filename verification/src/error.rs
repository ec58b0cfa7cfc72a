//! The ways in which an operation on the bookmarks can be refused.

use vstd::prelude::*;

verus! {

/// Why an operation was refused.
#[derive(Debug, PartialEq, Eq)]
pub enum FavError {
    /// The string is not a path: it is empty or holds a NUL character.
    InvalidPath,
    /// A favorite with this path exists already.
    DuplicatePath,
    /// An alias with this name exists already, or the name occurs twice in
    /// the batch that was to be attached.
    DuplicateAlias(String),
    /// No favorite has the identifier or the path that was given.
    FavoriteNotFound,
    /// Nothing to remove under the name or the path that was given.
    NotFound,
    /// Rows handed over as the contents of the relations break their rules.
    ConsistencyViolation,
    /// The relation has used up its identifiers.
    IdsExhausted,
}

/// The mathematical value of a [`FavError`].
pub enum Refusal {
    InvalidPath,
    DuplicatePath,
    DuplicateAlias(Seq<char>),
    FavoriteNotFound,
    NotFound,
    ConsistencyViolation,
    IdsExhausted,
}

impl View for FavError {
    type V = Refusal;

    open spec fn view(&self) -> Refusal {
        match self {
            FavError::InvalidPath => Refusal::InvalidPath,
            FavError::DuplicatePath => Refusal::DuplicatePath,
            FavError::DuplicateAlias(name) => Refusal::DuplicateAlias(name@),
            FavError::FavoriteNotFound => Refusal::FavoriteNotFound,
            FavError::NotFound => Refusal::NotFound,
            FavError::ConsistencyViolation => Refusal::ConsistencyViolation,
            FavError::IdsExhausted => Refusal::IdsExhausted,
        }
    }
}

impl FavError {
    /// A one-line description for the user.
    pub fn message(&self) -> (text: String)
        ensures
            text@ == self@.text(),
    {
        match self {
            FavError::InvalidPath => "invalid path".to_owned(),
            FavError::DuplicatePath => "the path is already a favorite".to_owned(),
            FavError::DuplicateAlias(name) => {
                let mut text = "the alias already exists: ".to_owned();
                text.append(name.as_str());
                text
            },
            FavError::FavoriteNotFound => "no such favorite".to_owned(),
            FavError::NotFound => "not found".to_owned(),
            FavError::ConsistencyViolation => "the stored rows are inconsistent".to_owned(),
            FavError::IdsExhausted => "no identifier is left".to_owned(),
        }
    }
}

impl Refusal {
    /// The description that [`FavError::message`] returns.
    pub open spec fn text(self) -> Seq<char> {
        match self {
            Refusal::InvalidPath => "invalid path"@,
            Refusal::DuplicatePath => "the path is already a favorite"@,
            Refusal::DuplicateAlias(name) => "the alias already exists: "@ + name,
            Refusal::FavoriteNotFound => "no such favorite"@,
            Refusal::NotFound => "not found"@,
            Refusal::ConsistencyViolation => "the stored rows are inconsistent"@,
            Refusal::IdsExhausted => "no identifier is left"@,
        }
    }
}

} // verus!
