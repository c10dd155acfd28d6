use vstd::prelude::*;

verus! {

/// What went wrong while compiling one declaration.
#[derive(Clone, Copy, PartialEq, Eq, Structural, Debug)]
pub enum ErrorKind {
    /// Brackets of an attribute do not balance.
    UnbalancedBrackets,
    /// An argument is neither `key`, `key = value` nor `key(...)`.
    MalformedArgument,
    /// A key that the attribute does not know.
    UnknownKey,
    /// A key is known but its value has the wrong shape.
    MalformedValue,
    /// A directive that must be unique was given twice.
    DuplicateDirective,
    /// An export shorthand name outside the fixed table.
    UnknownShorthand,
    /// An enum label table whose keys do not strictly increase.
    EnumKeysNotIncreasing,
    /// `init` together with `no_init`, or with a user-written constructor.
    ConflictingConstruction,
    /// Neither a construction policy nor a user-written constructor.
    AmbiguousConstruction,
    /// More than one field is the base handle.
    MultipleBaseFields,
    /// A field's role hints contradict each other.
    ConflictingRoleHints,
    /// A property getter names no exposed function.
    MissingGetter,
    /// A property setter names no exposed function.
    MissingSetter,
}

/// Where in a declaration a diagnostic points.
#[derive(Clone, Copy, PartialEq, Eq, Structural, Debug)]
pub enum Site {
    /// The declaration's own attributes.
    Class,
    /// The field with this index.
    Field(usize),
    /// The method with this index.
    Method(usize),
}

/// A located error: the site, the token offset inside the offending
/// attribute, and what went wrong.
#[derive(Clone, Copy, PartialEq, Eq, Structural, Debug)]
pub struct Diagnostic {
    pub site: Site,
    pub token: usize,
    pub kind: ErrorKind,
}

impl Diagnostic {
    pub fn new(site: Site, token: usize, kind: ErrorKind) -> (r: Diagnostic)
        ensures
            r == (Diagnostic { site, token, kind }),
    {
        Diagnostic { site, token, kind }
    }

    /// The human-readable message for this diagnostic.
    pub fn message(&self) -> (r: String) {
        let m = match self.kind {
            ErrorKind::UnbalancedBrackets => "unbalanced brackets in attribute",
            ErrorKind::MalformedArgument => "expected `key`, `key = value` or `key(...)`",
            ErrorKind::UnknownKey => "unknown key in attribute",
            ErrorKind::MalformedValue => "malformed value for attribute key",
            ErrorKind::DuplicateDirective => "directive given more than once",
            ErrorKind::UnknownShorthand => "unknown export hint",
            ErrorKind::EnumKeysNotIncreasing => "enum keys must strictly increase",
            ErrorKind::ConflictingConstruction => "conflicting construction policies",
            ErrorKind::AmbiguousConstruction =>
                "class has no construction policy: add #[class(init)], #[class(no_init)] or override init()",
            ErrorKind::MultipleBaseFields => "at most one field can be the base handle",
            ErrorKind::ConflictingRoleHints => "contradicting field role hints",
            ErrorKind::MissingGetter => "property getter is not an exposed function",
            ErrorKind::MissingSetter => "property setter is not an exposed function",
        };
        String::from_str(m)
    }
}

} // verus!
