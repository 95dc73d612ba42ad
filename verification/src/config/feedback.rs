//! What went wrong while the settings were put together.

use vstd::prelude::*;

verus! {

/// A complaint about the settings.
#[derive(Debug, PartialEq, Eq, Clone, Copy)]
pub enum ConfigError {
    /// The value under `key` is not what is `expected` there.
    BadValue { key: &'static str, expected: &'static str },
    /// Of two settings that go together only one was given.
    Incomplete { first: &'static str, second: &'static str },
}

/// A remark about the settings.
#[derive(Debug, PartialEq, Eq, Clone, Copy)]
pub enum ConfigWarning {
    /// The setting under `key` has no effect.
    Useless { key: &'static str },
    /// The data is not saved in the background.
    BgsaveDisabled,
}

/// The complaints about the settings from one source, in the order in which
/// they came up.
#[derive(Debug)]
pub struct ErrorStack {
    source: &'static str,
    stack: Vec<ConfigError>,
}

impl View for ErrorStack {
    type V = Seq<ConfigError>;

    closed spec fn view(&self) -> Seq<ConfigError> {
        self.stack@
    }
}

impl ErrorStack {
    /// The source of the settings.
    pub closed spec fn spec_source(&self) -> &'static str {
        self.source
    }

    /// Makes an empty stack for the settings from `source`.
    pub fn new(source: &'static str) -> (r: Self)
        ensures
            r@ == Seq::<ConfigError>::empty(),
            r.spec_source() == source,
    {
        ErrorStack { source, stack: Vec::new() }
    }

    /// Adds a complaint.
    pub fn push(&mut self, error: ConfigError)
        ensures
            final(self)@ == old(self)@.push(error),
            final(self).spec_source() == old(self).spec_source(),
    {
        self.stack.push(error);
    }

    /// Is there no complaint?
    pub fn is_empty(&self) -> (r: bool)
        ensures
            r == (self@.len() == 0),
    {
        self.stack.len() == 0
    }

    /// The source of the settings.
    pub fn source(&self) -> (r: &'static str)
        ensures
            r == self.spec_source(),
    {
        self.source
    }

    /// The complaints.
    pub fn as_slice(&self) -> (r: &[ConfigError])
        ensures
            r@ == self@,
    {
        self.stack.as_slice()
    }
}

/// The remarks about the settings from one source.
#[derive(Debug)]
pub struct WarningStack {
    source: &'static str,
    stack: Vec<ConfigWarning>,
}

impl View for WarningStack {
    type V = Seq<ConfigWarning>;

    closed spec fn view(&self) -> Seq<ConfigWarning> {
        self.stack@
    }
}

impl WarningStack {
    /// The source of the settings.
    pub closed spec fn spec_source(&self) -> &'static str {
        self.source
    }

    /// Makes an empty stack for the settings from `source`.
    pub fn new(source: &'static str) -> (r: Self)
        ensures
            r@ == Seq::<ConfigWarning>::empty(),
            r.spec_source() == source,
    {
        WarningStack { source, stack: Vec::new() }
    }

    /// Adds a remark.
    pub fn push(&mut self, warning: ConfigWarning)
        ensures
            final(self)@ == old(self)@.push(warning),
            final(self).spec_source() == old(self).spec_source(),
    {
        self.stack.push(warning);
    }

    /// The source of the settings.
    pub fn source(&self) -> (r: &'static str)
        ensures
            r == self.spec_source(),
    {
        self.source
    }

    /// Is there no remark?
    pub fn is_empty(&self) -> (r: bool)
        ensures
            r == (self@.len() == 0),
    {
        self.stack.len() == 0
    }

    /// The remarks.
    pub fn as_slice(&self) -> (r: &[ConfigWarning])
        ensures
            r@ == self@,
    {
        self.stack.as_slice()
    }
}

} // verus!
