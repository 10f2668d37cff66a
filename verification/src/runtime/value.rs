//! Map keys.

use vstd::prelude::*;
use crate::sema::ty::{Ty, TyV};
use crate::text::{int_text, push_i64};

verus! {

/// A map key: `Map` keys are `Int`, `Str` or `Bool`, which keeps key order
/// deterministic and hashing total.
#[derive(Clone, PartialEq, Eq, Hash, Debug)]
pub enum MapKey {
    /// An integer key.
    Int(i64),
    /// A string key.
    Str(String),
    /// A boolean key.
    Bool(bool),
}

/// How a key is printed: an integer in decimal, a string as its own text,
/// a boolean as `true` or `false`.
pub open spec fn key_text(k: MapKey) -> Seq<char> {
    match k {
        MapKey::Int(v) => int_text(v as int),
        MapKey::Str(s) => s@,
        MapKey::Bool(b) => if b { "true"@ } else { "false"@ },
    }
}

impl MapKey {
    /// The printed form of this key.
    pub fn text(&self) -> (s: String)
        ensures
            s@ == key_text(*self),
    {
        match self {
            MapKey::Int(v) => {
                let mut out = String::new();
                push_i64(&mut out, *v);
                assert(out@ =~= int_text(*v as int));
                out
            },
            MapKey::Str(s) => s.clone(),
            MapKey::Bool(b) => {
                if *b {
                    String::from_str("true")
                } else {
                    String::from_str("false")
                }
            },
        }
    }

    /// The type of this key.
    pub fn ty(&self) -> (t: Ty)
        ensures
            t@ == match self {
                MapKey::Int(_) => TyV::Int,
                MapKey::Str(_) => TyV::Str,
                MapKey::Bool(_) => TyV::Bool,
            },
    {
        match self {
            MapKey::Int(_) => Ty::Int,
            MapKey::Str(_) => Ty::Str,
            MapKey::Bool(_) => Ty::Bool,
        }
    }
}

} // verus!
