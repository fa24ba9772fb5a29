//! Lazy-loaded subtrees: the load state machine's states and the error
//! value handed to an error view.
use vstd::prelude::*;

verus! {

/// Where a lazy subtree is in its load.
#[derive(Clone, Debug)]
pub enum LazyState {
    /// The loader is running.
    Loading,
    /// The subtree arrived and is about to mount.
    Loaded,
    /// The subtree is mounted.
    Rendered,
    /// The loader failed with this message.
    Error(String),
}

impl LazyState {
    /// Still waiting for the subtree (loading or not yet mounted).
    pub fn is_loading(&self) -> (b: bool)
        ensures
            b == (self is Loading || self is Loaded),
    {
        match self {
            LazyState::Loading => true,
            LazyState::Loaded => true,
            _ => false,
        }
    }

    /// The load failed.
    pub fn is_error(&self) -> (b: bool)
        ensures
            b == self is Error,
    {
        match self {
            LazyState::Error(_) => true,
            _ => false,
        }
    }
}

/// A failed load: its message and the action that retries it.
#[derive(Clone)]
pub struct LazyError<R> {
    message: String,
    retry: R,
}

impl<R: Clone> LazyError<R> {
    pub fn new(message: String, retry: R) -> (e: Self)
        ensures
            e.message_view() == message@,
            e.retry_view() == retry,
    {
        LazyError { message, retry }
    }

    pub closed spec fn message_view(&self) -> Seq<char> {
        self.message@
    }

    pub closed spec fn retry_view(&self) -> R {
        self.retry
    }

    /// The failure message.
    pub fn message(&self) -> (m: &str)
        ensures
            m@ == self.message_view(),
    {
        self.message.as_str()
    }

    /// A handle on the retry action.
    pub fn retry(&self) -> (r: R)
        ensures
            cloned(self.retry_view(), r),
    {
        self.retry.clone()
    }
}

} // verus!
