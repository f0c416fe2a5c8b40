//! Classification of an enum group's kind marker. A recognized marker picks
//! the kind, an absent marker defaults to a plain constant collection, and an
//! unrecognized marker is a fatal input error that must surface to the
//! caller, never be defaulted silently.

use vstd::prelude::*;

use crate::model::EnumGroup;

verus! {

/// The three kinds of enum group the emitter distinguishes.
#[derive(Debug, Copy, Clone, PartialEq, Eq, Structural)]
pub enum EnumKind {
    Bitflag,
    Enum,
    Constant,
}

/// A kind marker the engine does not understand; it carries the offending
/// raw marker so the failure names it.
pub struct KindError {
    pub marker: String,
}

impl KindError {
    /// A descriptive message naming the unrecognized marker.
    pub fn message(&self) -> (r: String)
        ensures
            r@ == "unknown enum group kind marker: "@ + self.marker@,
    {
        let m = String::from_str("unknown enum group kind marker: ");
        m.concat(self.marker.as_str())
    }
}

/// What a kind marker means: a "bitmask" marker is a flag set, an "enum"
/// marker an ordinary enumeration, an absent marker a constant group, and
/// anything else is unrecognized.
pub open spec fn classify(marker: Option<Seq<char>>) -> Option<EnumKind> {
    match marker {
        Option::None => Option::Some(EnumKind::Constant),
        Option::Some(s) => if s == "bitmask"@ {
            Option::Some(EnumKind::Bitflag)
        } else if s == "enum"@ {
            Option::Some(EnumKind::Enum)
        } else {
            Option::None
        },
    }
}

impl EnumKind {
    /// Classify a present kind marker; an unrecognized marker is returned as
    /// an error naming it.
    pub fn from_str(s: &str) -> (r: Result<EnumKind, KindError>)
        ensures
            (r is Ok) <==> classify(Option::Some(s@)) is Some,
            r matches Ok(k) ==> classify(Option::Some(s@)) == Option::Some(k),
            r matches Err(e) ==> e.marker@ == s@,
    {
        if matches!(crate::lex::str_cmp(s, "bitmask"), crate::lex::NameOrder::Same) {
            Ok(EnumKind::Bitflag)
        } else if matches!(crate::lex::str_cmp(s, "enum"), crate::lex::NameOrder::Same) {
            Ok(EnumKind::Enum)
        } else {
            Err(KindError { marker: s.to_owned() })
        }
    }
}

/// Classification of a whole enum group from its optional kind marker.
pub trait EnumExt {
    /// The group's kind marker, as the specification document declared it.
    spec fn kind_marker(&self) -> Option<Seq<char>>;

    /// The group's kind; an unrecognized marker is an error naming it.
    fn enum_kind(&self) -> (r: Result<EnumKind, KindError>)
        ensures
            (r is Ok) <==> classify(self.kind_marker()) is Some,
            r matches Ok(k) ==> classify(self.kind_marker()) == Option::Some(k),
            r matches Err(e) ==> self.kind_marker() == Option::Some(e.marker@),
    ;
}

impl EnumExt for EnumGroup {
    open spec fn kind_marker(&self) -> Option<Seq<char>> {
        crate::model::opt_view(self.kind)
    }

    fn enum_kind(&self) -> (r: Result<EnumKind, KindError>) {
        match &self.kind {
            Some(s) => EnumKind::from_str(s.as_str()),
            None => Ok(EnumKind::Constant),
        }
    }
}

} // verus!
