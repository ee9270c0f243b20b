//! Errors.

use vstd::prelude::*;

verus! {

/// Why a request failed.
#[derive(Debug, PartialEq, Eq)]
pub enum ErrorCode {
    InternalError(String),
    NotImplementedError(String),
    InvalidInputSyntax(String),
    ItemNotFound(String),
    BindError(String),
    CatalogError(String),
    ProtocolError(String),
    InvalidConfigValue { config_entry: String, config_value: String },
}

/// An error by its meaning.
pub enum ErrorView {
    InternalError(Seq<char>),
    NotImplementedError(Seq<char>),
    InvalidInputSyntax(Seq<char>),
    ItemNotFound(Seq<char>),
    BindError(Seq<char>),
    CatalogError(Seq<char>),
    ProtocolError(Seq<char>),
    InvalidConfigValue { config_entry: Seq<char>, config_value: Seq<char> },
}

impl View for ErrorCode {
    type V = ErrorView;

    open spec fn view(&self) -> ErrorView {
        match self {
            ErrorCode::InternalError(m) => ErrorView::InternalError(m@),
            ErrorCode::NotImplementedError(m) => ErrorView::NotImplementedError(m@),
            ErrorCode::InvalidInputSyntax(m) => ErrorView::InvalidInputSyntax(m@),
            ErrorCode::ItemNotFound(m) => ErrorView::ItemNotFound(m@),
            ErrorCode::BindError(m) => ErrorView::BindError(m@),
            ErrorCode::CatalogError(m) => ErrorView::CatalogError(m@),
            ErrorCode::ProtocolError(m) => ErrorView::ProtocolError(m@),
            ErrorCode::InvalidConfigValue { config_entry, config_value } => ErrorView::InvalidConfigValue {
                config_entry: config_entry@,
                config_value: config_value@,
            },
        }
    }
}

/// The request failed with the given error.
pub open spec fn fails<T>(r: Result<T, ErrorCode>, error: ErrorView) -> bool {
    r matches Err(e) && e@ == error
}

impl ErrorCode {
    /// A copy of the error.
    pub fn copy(&self) -> (r: ErrorCode)
        ensures
            r == *self,
    {
        match self {
            ErrorCode::InternalError(m) => ErrorCode::InternalError(m.clone()),
            ErrorCode::NotImplementedError(m) => ErrorCode::NotImplementedError(m.clone()),
            ErrorCode::InvalidInputSyntax(m) => ErrorCode::InvalidInputSyntax(m.clone()),
            ErrorCode::ItemNotFound(m) => ErrorCode::ItemNotFound(m.clone()),
            ErrorCode::BindError(m) => ErrorCode::BindError(m.clone()),
            ErrorCode::CatalogError(m) => ErrorCode::CatalogError(m.clone()),
            ErrorCode::ProtocolError(m) => ErrorCode::ProtocolError(m.clone()),
            ErrorCode::InvalidConfigValue { config_entry, config_value } => ErrorCode::InvalidConfigValue {
                config_entry: config_entry.clone(),
                config_value: config_value.clone(),
            },
        }
    }
}

} // verus!
