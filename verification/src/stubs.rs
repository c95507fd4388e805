//! What the checker knows from outside the checked file: the stub
//! database's names, datasets, function signatures and S3 methods, and the
//! variables other files of the project define.
use vstd::prelude::*;
use crate::types::{Mode, RType};
use crate::typeshed::FunctionSig;
use crate::stub_narrowing::PredicateStub;

verus! {

/// Where an S3 method for a generic and a class comes from.
#[derive(Debug)]
pub enum S3Source {
    /// A method registered by a package, whose result is not known.
    Registered,
    /// A method the project defines, with its inferred return type when
    /// one is known.
    Project(Option<RType>),
    /// A method the stubs declare.
    Stub(FunctionSig),
}

/// An S3 method: `generic.class`.
#[derive(Debug)]
pub struct S3Method {
    pub generic: String,
    pub class: String,
    pub source: S3Source,
}

/// The stub database and project facts the checker consults.
#[derive(Debug)]
pub struct Stubs {
    /// Names the stubs declare as ambient globals.
    pub globals: Vec<String>,
    /// Names bound outside the checked sources.
    pub external: Vec<String>,
    /// Datasets, by name.
    pub datasets: Vec<(String, RType)>,
    /// Function signatures, by name.
    pub functions: Vec<(String, FunctionSig)>,
    /// Variables other files of the project define.
    pub known_vars: Vec<String>,
    /// S3 methods, in lookup order.
    pub s3_methods: Vec<S3Method>,
    /// Predicates the stubs declare, by the name a call spells.
    pub predicates: Vec<PredicateStub>,
}

/// Whether a stub database is empty.
pub open spec fn stubs_empty(s: Stubs) -> bool {
    &&& s.globals@.len() == 0
    &&& s.external@.len() == 0
    &&& s.datasets@.len() == 0
    &&& s.functions@.len() == 0
    &&& s.known_vars@.len() == 0
    &&& s.s3_methods@.len() == 0
    &&& s.predicates@.len() == 0
}

impl Default for Stubs {
    fn default() -> (r: Stubs)
        ensures
            stubs_empty(r),
    {
        Stubs {
            globals: Vec::new(),
            external: Vec::new(),
            datasets: Vec::new(),
            functions: Vec::new(),
            known_vars: Vec::new(),
            s3_methods: Vec::new(),
            predicates: Vec::new(),
        }
    }
}

} // verus!
