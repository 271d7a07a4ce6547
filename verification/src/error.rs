//! The library's error type.
use vstd::prelude::*;

use crate::text::{owned, push_all};

verus! {

/// Why a download or a queue operation failed.
#[derive(Debug)]
pub enum JunkError {
    InvalidUrl(String),
    Http(String),
    /// An I/O failure, by its message.
    Io(String),
    Cancelled,
    Other(String),
}

/// A `JunkError` as a value of the specification.
pub enum JunkErrorView {
    InvalidUrl(Seq<char>),
    Http(Seq<char>),
    Io(Seq<char>),
    Cancelled,
    Other(Seq<char>),
}

impl View for JunkError {
    type V = JunkErrorView;

    open spec fn view(&self) -> JunkErrorView {
        match self {
            JunkError::InvalidUrl(s) => JunkErrorView::InvalidUrl(s@),
            JunkError::Http(s) => JunkErrorView::Http(s@),
            JunkError::Io(s) => JunkErrorView::Io(s@),
            JunkError::Cancelled => JunkErrorView::Cancelled,
            JunkError::Other(s) => JunkErrorView::Other(s@),
        }
    }
}

pub type Result<T> = core::result::Result<T, JunkError>;

/// The message an error is displayed with.
pub open spec fn error_message(e: JunkErrorView) -> Seq<char> {
    match e {
        JunkErrorView::InvalidUrl(s) => "invalid URL: "@ + s,
        JunkErrorView::Http(s) => "HTTP error: "@ + s,
        JunkErrorView::Io(s) => "I/O error: "@ + s,
        JunkErrorView::Cancelled => "cancelled"@,
        JunkErrorView::Other(s) => s,
    }
}

impl JunkError {
    /// The message the error is displayed with.
    pub fn message(&self) -> (r: String)
        ensures
            r@ == error_message(self@),
    {
        match self {
            JunkError::InvalidUrl(s) => {
                let mut m = owned("invalid URL: ");
                push_all(&mut m, s.as_str());
                m
            },
            JunkError::Http(s) => {
                let mut m = owned("HTTP error: ");
                push_all(&mut m, s.as_str());
                m
            },
            JunkError::Io(s) => {
                let mut m = owned("I/O error: ");
                push_all(&mut m, s.as_str());
                m
            },
            JunkError::Cancelled => owned("cancelled"),
            JunkError::Other(s) => owned(s.as_str()),
        }
    }
}

} // verus!
