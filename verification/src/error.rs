//! What can go wrong.

use vstd::prelude::*;
use vstd::string::*;

verus! {

/// An error, with what there is to say about it.
#[derive(Debug)]
pub enum Error {
    /// The configuration is not usable.
    Config(String),
    /// Reading or writing failed.
    Io {
        /// What was being done.
        context: String,
        /// What the system said.
        cause: String,
    },
    /// A source failed.
    Source(String),
    /// A sink failed.
    Sink(String),
    /// Anything else.
    Other(String),
}

/// What an [`Error`] holds.
pub enum ErrorView {
    Config(Seq<char>),
    Io { context: Seq<char>, cause: Seq<char> },
    Source(Seq<char>),
    Sink(Seq<char>),
    Other(Seq<char>),
}

impl Error {
    pub open spec fn view(&self) -> ErrorView {
        match *self {
            Error::Config(m) => ErrorView::Config(m@),
            Error::Io { context, cause } => ErrorView::Io { context: context@, cause: cause@ },
            Error::Source(m) => ErrorView::Source(m@),
            Error::Sink(m) => ErrorView::Sink(m@),
            Error::Other(m) => ErrorView::Other(m@),
        }
    }

    /// An error of the configuration.
    pub fn config(message: &str) -> (r: Error)
        ensures
            r@ == ErrorView::Config(message@),
    {
        Error::Config(message.to_owned())
    }

    /// An error of reading or writing.
    pub fn io(context: &str, cause: &str) -> (r: Error)
        ensures
            r@ == (ErrorView::Io { context: context@, cause: cause@ }),
    {
        Error::Io { context: context.to_owned(), cause: cause.to_owned() }
    }

    /// An error of a source.
    pub fn source(message: &str) -> (r: Error)
        ensures
            r@ == ErrorView::Source(message@),
    {
        Error::Source(message.to_owned())
    }

    /// An error of a sink.
    pub fn sink(message: &str) -> (r: Error)
        ensures
            r@ == ErrorView::Sink(message@),
    {
        Error::Sink(message.to_owned())
    }

    /// Any other error.
    pub fn other(message: &str) -> (r: Error)
        ensures
            r@ == ErrorView::Other(message@),
    {
        Error::Other(message.to_owned())
    }

    /// The error in words.
    pub fn message(&self) -> (r: String)
        ensures
            r@ == (match self@ {
                ErrorView::Config(m) => m,
                ErrorView::Io { context, cause } => context + ": "@ + cause,
                ErrorView::Source(m) => m,
                ErrorView::Sink(m) => m,
                ErrorView::Other(m) => m,
            }),
    {
        match self {
            Error::Config(m) => m.clone(),
            Error::Io { context, cause } => {
                let mut out = context.clone();
                out.append(": ");
                out.append(cause.as_str());
                out
            },
            Error::Source(m) => m.clone(),
            Error::Sink(m) => m.clone(),
            Error::Other(m) => m.clone(),
        }
    }
}

} // verus!
