use vstd::prelude::*;
use crate::diag::ErrorKind;
use crate::text::ident_is;
use crate::tokens::Tok;

verus! {

/// How the host constructs instances of the class.
#[derive(Clone, Copy, PartialEq, Eq, Structural, Debug)]
pub enum ConstructionPolicy {
    /// A constructor is generated from field defaults.
    Generated,
    /// The user's own `init` override constructs instances.
    UserProvided,
    /// The host may not construct instances.
    Disabled,
}

/// The construction policy that `init`, `no_init` and a user-written
/// constructor override decide, or the error they cause.
pub open spec fn construction_of(init: bool, no_init: bool, has_override: bool) -> Result<ConstructionPolicy, ErrorKind> {
    if (init && no_init) || (init && has_override) || (no_init && has_override) {
        Err(ErrorKind::ConflictingConstruction)
    } else if init {
        Ok(ConstructionPolicy::Generated)
    } else if no_init {
        Ok(ConstructionPolicy::Disabled)
    } else if has_override {
        Ok(ConstructionPolicy::UserProvided)
    } else {
        Err(ErrorKind::AmbiguousConstruction)
    }
}

pub fn resolve_construction(init: bool, no_init: bool, has_override: bool) -> (r: Result<ConstructionPolicy, ErrorKind>)
    ensures
        r == construction_of(init, no_init, has_override),
{
    if (init && no_init) || (init && has_override) || (no_init && has_override) {
        Err(ErrorKind::ConflictingConstruction)
    } else if init {
        Ok(ConstructionPolicy::Generated)
    } else if no_init {
        Ok(ConstructionPolicy::Disabled)
    } else if has_override {
        Ok(ConstructionPolicy::UserProvided)
    } else {
        Err(ErrorKind::AmbiguousConstruction)
    }
}

/// Explicit role hints on a field: `hint(base)`, `hint(no_base)`,
/// `hint(onready)`, `hint(no_onready)`.
#[derive(Clone, Copy, PartialEq, Eq, Structural, Debug)]
pub struct RoleHints {
    pub base: bool,
    pub no_base: bool,
    pub onready: bool,
    pub no_onready: bool,
}

/// What a field is to the class.
#[derive(Clone, Copy, PartialEq, Eq, Structural, Debug)]
pub enum FieldRole {
    /// Ordinary data.
    Plain,
    /// The link to the host's underlying object.
    Base,
    /// Initialized after the base handle exists, before the ready hook runs.
    OnReady,
}

/// The type's head: the identifier just before its first `<`, or its last
/// token when it has none, is `w`.
pub open spec fn head_is(ty: Seq<Tok>, w: Seq<char>) -> bool {
    exists|h: int|
        0 < h <= ty.len() && (h == ty.len() || ty[h] == Tok::Punct('<')) && (forall|j: int|
            0 <= j < h ==> ty[j] != Tok::Punct('<')) && #[trigger] ident_is(ty, h - 1, w)
}

/// The role of a field: explicit hints are consulted first; only where they
/// are silent does the type's head decide (`Base<..>`, `OnReady<..>`).
pub open spec fn role_of(h: RoleHints, ty: Seq<Tok>) -> Result<FieldRole, ErrorKind> {
    if (h.base && h.no_base) || (h.onready && h.no_onready) || (h.base && h.onready) {
        Err(ErrorKind::ConflictingRoleHints)
    } else if h.base {
        Ok(FieldRole::Base)
    } else if h.onready {
        Ok(FieldRole::OnReady)
    } else if !h.no_base && head_is(ty, "Base"@) {
        Ok(FieldRole::Base)
    } else if !h.no_onready && head_is(ty, "OnReady"@) {
        Ok(FieldRole::OnReady)
    } else {
        Ok(FieldRole::Plain)
    }
}

fn is_open_angle(t: &Tok) -> (r: bool)
    ensures
        r == (*t == Tok::Punct('<')),
{
    matches!(t, Tok::Punct('<'))
}

fn type_head_is(ty: &Vec<Tok>, w: &str) -> (r: bool)
    ensures
        r == head_is(ty@, w@),
{
    let mut h: usize = 0;
    while h < ty.len() && !is_open_angle(&ty[h])
        invariant
            0 <= h <= ty.len(),
            forall|j: int| 0 <= j < h ==> ty@[j] != Tok::Punct('<'),
        decreases ty.len() - h,
    {
        h = h + 1;
    }
    if h == 0 {
        proof {
            if head_is(ty@, w@) {
                let g = choose|g: int|
                    0 < g <= ty.len() && (g == ty.len() || ty@[g] == Tok::Punct('<')) && (forall|j: int|
                        0 <= j < g ==> ty@[j] != Tok::Punct('<')) && #[trigger] ident_is(ty@, g - 1, w@);
                assert(ty@[0] != Tok::Punct('<'));
            }
        }
        return false;
    }
    let r = crate::text::token_is_ident(ty, h - 1, w);
    proof {
        if head_is(ty@, w@) {
            let g = choose|g: int|
                0 < g <= ty.len() && (g == ty.len() || ty@[g] == Tok::Punct('<')) && (forall|j: int|
                    0 <= j < g ==> ty@[j] != Tok::Punct('<')) && #[trigger] ident_is(ty@, g - 1, w@);
            if g < h {
                assert(ty@[g] != Tok::Punct('<'));
            }
            if h < g {
                assert(ty@[h as int] != Tok::Punct('<'));
            }
        }
    }
    r
}

/// Classifies a field by its hints and, where they are silent, its type.
pub fn classify_field(h: RoleHints, ty: &Vec<Tok>) -> (r: Result<FieldRole, ErrorKind>)
    ensures
        r == role_of(h, ty@),
{
    if (h.base && h.no_base) || (h.onready && h.no_onready) || (h.base && h.onready) {
        Err(ErrorKind::ConflictingRoleHints)
    } else if h.base {
        Ok(FieldRole::Base)
    } else if h.onready {
        Ok(FieldRole::OnReady)
    } else if !h.no_base && type_head_is(ty, "Base") {
        Ok(FieldRole::Base)
    } else if !h.no_onready && type_head_is(ty, "OnReady") {
        Ok(FieldRole::OnReady)
    } else {
        Ok(FieldRole::Plain)
    }
}

/// An explicit `hint(base)` makes a field the base handle whatever its type.
pub proof fn law_base_hint_overrides_type(h: RoleHints, ty: Seq<Tok>)
    requires
        h.base,
        !h.no_base,
        !h.onready,
    ensures
        role_of(h, ty) == Ok::<FieldRole, ErrorKind>(FieldRole::Base),
{
}

/// A declaration that names no construction policy and overrides no
/// constructor is rejected as ambiguous.
pub proof fn law_no_policy_is_ambiguous()
    ensures
        construction_of(false, false, false) == Err::<ConstructionPolicy, ErrorKind>(
            ErrorKind::AmbiguousConstruction,
        ),
{
}

} // verus!
