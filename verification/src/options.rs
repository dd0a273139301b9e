//! The options of the operations.

use vstd::prelude::*;

verus! {

/// Options for projecting a value.
#[derive(Clone, Copy, Debug, PartialEq, Eq)]
pub struct ProjectOptions {
    /// If true, an optional that holds the default value of its type is
    /// made absent in what the projection would else keep as it is.
    pub normalize: bool,
}

/// Options for updating or merging a value.
#[derive(Clone, Copy, Debug, PartialEq, Eq)]
pub struct UpdateOptions {
    /// If true, a repeated field of the target is replaced by that of the
    /// source; otherwise the items of the source are appended to it.
    pub replace_repeated: bool,
    /// If true, a record that is selected as a whole is replaced by that
    /// of the source; otherwise the source is merged into it field by
    /// field.
    pub replace_message: bool,
}

impl Default for ProjectOptions {
    fn default() -> (r: ProjectOptions)
        ensures
            !r.normalize,
    {
        ProjectOptions { normalize: false }
    }
}

impl Default for UpdateOptions {
    fn default() -> (r: UpdateOptions)
        ensures
            !r.replace_repeated,
            !r.replace_message,
    {
        UpdateOptions { replace_repeated: false, replace_message: false }
    }
}

/// Collects the options for projecting a value.
#[derive(Clone, Copy, Debug)]
pub struct ProjectOptionsBuilder {
    pub options: ProjectOptions,
}

/// Collects the options for updating or merging a value.
#[derive(Clone, Copy, Debug)]
pub struct UpdateOptionsBuilder {
    pub options: UpdateOptions,
}

impl ProjectOptions {
    /// Starts from the default options.
    pub fn builder() -> (r: ProjectOptionsBuilder)
        ensures
            !r.options.normalize,
    {
        ProjectOptionsBuilder { options: ProjectOptions { normalize: false } }
    }
}

impl ProjectOptionsBuilder {
    pub fn normalize(self, value: bool) -> (r: ProjectOptionsBuilder)
        ensures
            r.options.normalize == value,
    {
        ProjectOptionsBuilder { options: ProjectOptions { normalize: value } }
    }

    pub fn build(self) -> (r: ProjectOptions)
        ensures
            r == self.options,
    {
        self.options
    }
}

impl UpdateOptions {
    /// Starts from the default options.
    pub fn builder() -> (r: UpdateOptionsBuilder)
        ensures
            !r.options.replace_repeated,
            !r.options.replace_message,
    {
        UpdateOptionsBuilder {
            options: UpdateOptions { replace_repeated: false, replace_message: false },
        }
    }
}

impl UpdateOptionsBuilder {
    pub fn replace_repeated(self, value: bool) -> (r: UpdateOptionsBuilder)
        ensures
            r.options.replace_repeated == value,
            r.options.replace_message == self.options.replace_message,
    {
        UpdateOptionsBuilder {
            options: UpdateOptions {
                replace_repeated: value,
                replace_message: self.options.replace_message,
            },
        }
    }

    pub fn replace_message(self, value: bool) -> (r: UpdateOptionsBuilder)
        ensures
            r.options.replace_message == value,
            r.options.replace_repeated == self.options.replace_repeated,
    {
        UpdateOptionsBuilder {
            options: UpdateOptions {
                replace_repeated: self.options.replace_repeated,
                replace_message: value,
            },
        }
    }

    pub fn build(self) -> (r: UpdateOptions)
        ensures
            r == self.options,
    {
        self.options
    }
}

} // verus!
