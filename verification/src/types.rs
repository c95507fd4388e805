//! The type lattice the checker infers over: storage modes, lengths, class
//! vectors, record schemas, and unions.
use vstd::prelude::*;
use crate::text::str_eq;

verus! {

/// Storage mode of an R value.
#[derive(Clone, Copy, PartialEq, Eq, Debug, Structural)]
pub enum Mode {
    Logical,
    Integer,
    Double,
    Complex,
    Character,
    Raw,
    List,
    Null,
    Function,
    Opaque,
    Union,
}

/// Length of an R value, as far as it is statically known.
#[derive(Clone, Copy, PartialEq, Eq, Debug, Structural)]
pub enum Length {
    Zero,
    One,
    Known(usize),
    Unknown,
    Nonempty,
}

/// Whether a length admits an empty value.
pub open spec fn may_be_empty_spec(l: Length) -> bool {
    l == Length::Zero || l == Length::Unknown || l == Length::Known(0)
}

impl Length {
    /// Whether a value of this length may be empty.
    pub fn may_be_empty(&self) -> (r: bool)
        ensures
            r == may_be_empty_spec(*self),
    {
        match self {
            Length::Zero | Length::Unknown => true,
            Length::Known(n) => *n == 0,
            Length::One | Length::Nonempty => false,
        }
    }
}

/// The class attribute of a value. `known == false` means the class may be
/// anything; a known empty vector means the value is provably classless.
#[derive(Clone, Debug, PartialEq, Eq)]
pub struct ClassVector {
    pub known: bool,
    pub names: Vec<String>,
}

/// The named fields of a list or data frame.
#[derive(Debug, PartialEq, Eq)]
pub struct ColumnSchema {
    pub columns: Vec<(String, RType)>,
    /// Whether the listed fields are all the fields the value has.
    pub complete: bool,
    /// Whether the schema comes from a local `list(...)` construction.
    pub locally_constructed: bool,
}

/// An inferred R type.
#[derive(Debug, PartialEq, Eq)]
pub struct RType {
    pub mode: Mode,
    pub length: Length,
    pub class: ClassVector,
    /// Members of a union (`mode == Mode::Union`).
    pub members: Option<Vec<RType>>,
    /// Field schema of a list-like value.
    pub columns: Option<ColumnSchema>,
}

/// Equality of class vectors by content.
pub open spec fn class_eq(a: ClassVector, b: ClassVector) -> bool {
    &&& a.known == b.known
    &&& a.names@.len() == b.names@.len()
    &&& forall|i: int| 0 <= i < a.names@.len() ==> #[trigger] a.names@[i]@ == b.names@[i]@
}

/// Whether the class vector names `name`.
pub open spec fn class_has(c: ClassVector, name: Seq<char>) -> bool {
    exists|i: int| 0 <= i < c.names@.len() && #[trigger] c.names@[i]@ == name
}

/// Structural equality of types, comparing text by content.
pub open spec fn ty_eq(a: RType, b: RType) -> bool
    decreases a,
{
    &&& a.mode == b.mode
    &&& a.length == b.length
    &&& class_eq(a.class, b.class)
    &&& match (a.members, b.members) {
        (None, None) => true,
        (Some(x), Some(y)) => {
            &&& x@.len() == y@.len()
            &&& forall|i: int| 0 <= i < x@.len() ==> ty_eq(#[trigger] x@[i], y@[i])
        },
        _ => false,
    }
    &&& match (a.columns, b.columns) {
        (None, None) => true,
        (Some(x), Some(y)) => {
            &&& x.complete == y.complete
            &&& x.locally_constructed == y.locally_constructed
            &&& x.columns@.len() == y.columns@.len()
            &&& forall|i: int|
                0 <= i < x.columns@.len() ==> (#[trigger] x.columns@[i]).0@ == y.columns@[i].0@
                    && ty_eq(x.columns@[i].1, y.columns@[i].1)
        },
        _ => false,
    }
}

/// A union member is structurally smaller than the union.
pub proof fn lemma_member_decreases(t: RType, i: int)
    requires
        t.members is Some,
        0 <= i < t.members->0@.len(),
    ensures
        decreases_to!(t => t.members->0@[i]),
{
    let ms = t.members->0;
    assert(decreases_to!(t => t.members));
    assert(decreases_to!(t.members => t.members->0));
    assert(decreases_to!(ms => ms@));
    assert(decreases_to!(ms@ => ms@[i]));
}

/// A schema column's type is structurally smaller than the owning type.
pub proof fn lemma_column_decreases(t: RType, i: int)
    requires
        t.columns is Some,
        0 <= i < t.columns->0.columns@.len(),
    ensures
        decreases_to!(t => t.columns->0.columns@[i].1),
{
    let schema = t.columns->0;
    assert(decreases_to!(t => t.columns));
    assert(decreases_to!(t.columns => t.columns->0));
    assert(decreases_to!(schema => schema.columns));
    assert(decreases_to!(schema.columns => schema.columns@));
    assert(decreases_to!(schema.columns@ => schema.columns@[i]));
    assert(decreases_to!(schema.columns@[i] => schema.columns@[i].1));
}

/// A copy of a class vector.
pub fn copy_class(c: &ClassVector) -> (r: ClassVector)
    ensures
        class_eq(r, *c),
        r.names@ == c.names@,
{
    ClassVector { known: c.known, names: c.names.clone() }
}

/// A deep copy of a type.
pub fn copy_type(t: &RType) -> (r: RType)
    ensures
        ty_eq(r, *t),
        r.mode == t.mode,
        r.length == t.length,
    decreases t,
{
    let members = match &t.members {
        None => None,
        Some(ms) => {
            let mut out: Vec<RType> = Vec::new();
            let mut i: usize = 0;
            while i < ms.len()
                invariant
                    i <= ms@.len(),
                    out@.len() == i,
                    t.members == Some(*ms),
                    forall|k: int| 0 <= k < i ==> ty_eq(#[trigger] out@[k], ms@[k]),
                decreases ms.len() - i,
            {
                proof {
                    lemma_member_decreases(*t, i as int);
                }
                let m = copy_type(&ms[i]);
                out.push(m);
                i = i + 1;
            }
            Some(out)
        },
    };
    let columns = match &t.columns {
        None => None,
        Some(schema) => {
            let mut out: Vec<(String, RType)> = Vec::new();
            let mut i: usize = 0;
            while i < schema.columns.len()
                invariant
                    i <= schema.columns@.len(),
                    out@.len() == i,
                    t.columns == Some(*schema),
                    forall|k: int|
                        0 <= k < i ==> (#[trigger] out@[k]).0@ == schema.columns@[k].0@ && ty_eq(
                            out@[k].1,
                            schema.columns@[k].1,
                        ),
                decreases schema.columns.len() - i,
            {
                proof {
                    lemma_column_decreases(*t, i as int);
                }
                let name = schema.columns[i].0.clone();
                let ty = copy_type(&schema.columns[i].1);
                out.push((name, ty));
                i = i + 1;
            }
            Some(
                ColumnSchema {
                    columns: out,
                    complete: schema.complete,
                    locally_constructed: schema.locally_constructed,
                },
            )
        },
    };
    RType { mode: t.mode, length: t.length, class: copy_class(&t.class), members, columns }
}

impl Clone for RType {
    fn clone(&self) -> (r: Self)
        ensures
            ty_eq(r, *self),
    {
        copy_type(self)
    }
}

/// The opaque type: nothing is known about the value.
pub open spec fn is_unknown_type(t: RType) -> bool {
    &&& t.mode == Mode::Opaque
    &&& t.length == Length::Unknown
    &&& !t.class.known
    &&& t.class.names@.len() == 0
    &&& t.members is None
    &&& t.columns is None
}

/// A classless type of the given mode and length, with no members or fields.
pub open spec fn is_plain_type(t: RType, mode: Mode, length: Length) -> bool {
    &&& t.mode == mode
    &&& t.length == length
    &&& t.class.known
    &&& t.class.names@.len() == 0
    &&& t.members is None
    &&& t.columns is None
}

/// Whether a class vector records at least one known class name.
pub open spec fn has_known_class_spec(c: ClassVector) -> bool {
    c.known && c.names@.len() > 0
}

impl ClassVector {
    /// A known, empty class vector: the value is classless.
    pub fn empty() -> (r: ClassVector)
        ensures
            r.known,
            r.names@.len() == 0,
    {
        ClassVector { known: true, names: Vec::new() }
    }

    /// A class vector about which nothing is known.
    pub fn unknown() -> (r: ClassVector)
        ensures
            !r.known,
            r.names@.len() == 0,
    {
        ClassVector { known: false, names: Vec::new() }
    }

    /// A known class vector holding exactly `name`.
    pub fn single(name: &str) -> (r: ClassVector)
        ensures
            r.known,
            r.names@.len() == 1,
            r.names@[0]@ == name@,
    {
        let mut names: Vec<String> = Vec::new();
        names.push(name.to_string());
        ClassVector { known: true, names }
    }

    /// A known class vector holding exactly `names`, in order.
    pub fn from_names(names: Vec<String>) -> (r: ClassVector)
        ensures
            r.known,
            r.names@ == names@,
    {
        ClassVector { known: true, names }
    }

    /// Whether at least one class name is known.
    pub fn has_known_class(&self) -> (r: bool)
        ensures
            r == has_known_class_spec(*self),
    {
        self.known && self.names.len() > 0
    }

    /// Whether nothing is known about the class.
    pub fn is_unknown(&self) -> (r: bool)
        ensures
            r == !self.known,
    {
        !self.known
    }

    /// Whether the class vector names `name`.
    pub fn contains(&self, name: &str) -> (r: bool)
        ensures
            r == class_has(*self, name@),
    {
        let mut i: usize = 0;
        while i < self.names.len()
            invariant
                i <= self.names@.len(),
                forall|k: int| 0 <= k < i ==> self.names@[k]@ != name@,
            decreases self.names.len() - i,
        {
            if str_eq(self.names[i].as_str(), name) {
                return true;
            }
            i = i + 1;
        }
        false
    }
}

/// Whether two class vectors have the same content.
pub fn same_class(a: &ClassVector, b: &ClassVector) -> (r: bool)
    ensures
        r == class_eq(*a, *b),
{
    if a.known != b.known || a.names.len() != b.names.len() {
        return false;
    }
    let mut i: usize = 0;
    while i < a.names.len()
        invariant
            i <= a.names@.len(),
            a.names@.len() == b.names@.len(),
            forall|k: int| 0 <= k < i ==> #[trigger] a.names@[k]@ == b.names@[k]@,
        decreases a.names.len() - i,
    {
        if !str_eq(a.names[i].as_str(), b.names[i].as_str()) {
            return false;
        }
        i = i + 1;
    }
    true
}

/// Whether two types are structurally equal.
pub fn same_type(a: &RType, b: &RType) -> (r: bool)
    ensures
        r == ty_eq(*a, *b),
    decreases a,
{
    if a.mode != b.mode || a.length != b.length || !same_class(&a.class, &b.class) {
        return false;
    }
    match (&a.members, &b.members) {
        (None, None) => {},
        (Some(x), Some(y)) => {
            if x.len() != y.len() {
                return false;
            }
            let mut i: usize = 0;
            while i < x.len()
                invariant
                    i <= x@.len(),
                    x@.len() == y@.len(),
                    a.members == Some(*x),
                    b.members == Some(*y),
                    forall|k: int| 0 <= k < i ==> ty_eq(#[trigger] x@[k], y@[k]),
                decreases x.len() - i,
            {
                proof {
                    lemma_member_decreases(*a, i as int);
                }
                if !same_type(&x[i], &y[i]) {
                    assert(!ty_eq(x@[i as int], y@[i as int]));
                    return false;
                }
                i = i + 1;
            }
        },
        _ => {
            return false;
        },
    }
    match (&a.columns, &b.columns) {
        (None, None) => true,
        (Some(x), Some(y)) => {
            if x.complete != y.complete || x.locally_constructed != y.locally_constructed
                || x.columns.len() != y.columns.len() {
                return false;
            }
            let mut i: usize = 0;
            while i < x.columns.len()
                invariant
                    i <= x.columns@.len(),
                    x.columns@.len() == y.columns@.len(),
                    a.columns == Some(*x),
                    b.columns == Some(*y),
                    forall|k: int|
                        0 <= k < i ==> (#[trigger] x.columns@[k]).0@ == y.columns@[k].0@ && ty_eq(
                            x.columns@[k].1,
                            y.columns@[k].1,
                        ),
                decreases x.columns.len() - i,
            {
                proof {
                    lemma_column_decreases(*a, i as int);
                }
                if !str_eq(x.columns[i].0.as_str(), y.columns[i].0.as_str()) {
                    assert(x.columns@[i as int].0@ != y.columns@[i as int].0@);
                    return false;
                }
                if !same_type(&x.columns[i].1, &y.columns[i].1) {
                    assert(!ty_eq(x.columns@[i as int].1, y.columns@[i as int].1));
                    return false;
                }
                i = i + 1;
            }
            true
        },
        _ => false,
    }
}

/// The length a union of `ms` carries: the members' common length, if any.
pub open spec fn common_length(ms: Seq<RType>) -> Length {
    if ms.len() > 0 && forall|i: int| 0 <= i < ms.len() ==> #[trigger] ms[i].length == ms[0].length {
        ms[0].length
    } else {
        Length::Unknown
    }
}

/// `r` is the union built from the member list `ms`: no members is the
/// opaque type, one member is that member, more form a union.
pub open spec fn union_of(ms: Seq<RType>, r: RType) -> bool {
    if ms.len() == 0 {
        is_unknown_type(r)
    } else if ms.len() == 1 {
        r == ms[0]
    } else {
        &&& r.mode == Mode::Union
        &&& r.length == common_length(ms)
        &&& r.class.known
        &&& r.class.names@.len() == 0
        &&& r.members is Some
        &&& r.members->0@ == ms
        &&& r.columns is None
    }
}

/// The alternatives a type stands for: a union's members, or the type itself.
pub open spec fn parts(t: RType) -> Seq<RType> {
    if t.mode == Mode::Union && t.members is Some {
        t.members->0@
    } else {
        seq![t]
    }
}

/// Whether `s` holds a type structurally equal to `x`.
pub open spec fn covered(x: RType, s: Seq<RType>) -> bool {
    exists|j: int| 0 <= j < s.len() && ty_eq(#[trigger] s[j], x)
}

/// `ms` lists the alternatives of `src` once each, up to structural equality.
pub open spec fn dedup_of(ms: Seq<RType>, src: Seq<RType>) -> bool {
    &&& forall|i: int| 0 <= i < src.len() ==> covered(#[trigger] src[i], ms)
    &&& forall|j: int| 0 <= j < ms.len() ==> covered(#[trigger] ms[j], src)
    &&& forall|i: int, j: int| 0 <= i < j < ms.len() ==> !ty_eq(#[trigger] ms[i], #[trigger] ms[j])
}

/// The join of two types: equal types join to themselves, anything joined
/// with an opaque type is opaque, and otherwise the union of the distinct
/// alternatives of both.
pub open spec fn join_of(a: RType, b: RType, r: RType) -> bool {
    if ty_eq(a, b) {
        r == a
    } else if a.mode == Mode::Opaque || b.mode == Mode::Opaque {
        is_unknown_type(r)
    } else {
        exists|ms: Seq<RType>| dedup_of(ms, parts(a) + parts(b)) && #[trigger] union_of(ms, r)
    }
}

impl RType {
    /// The opaque type.
    pub fn unknown() -> (r: RType)
        ensures
            is_unknown_type(r),
    {
        RType {
            mode: Mode::Opaque,
            length: Length::Unknown,
            class: ClassVector::unknown(),
            members: None,
            columns: None,
        }
    }

    /// A classless scalar of `mode`.
    pub fn scalar(mode: Mode) -> (r: RType)
        ensures
            is_plain_type(r, mode, Length::One),
    {
        RType { mode, length: Length::One, class: ClassVector::empty(), members: None, columns: None }
    }

    /// A classless value of `mode` and `length`.
    pub fn new(mode: Mode, length: Length) -> (r: RType)
        ensures
            is_plain_type(r, mode, length),
    {
        RType { mode, length, class: ClassVector::empty(), members: None, columns: None }
    }

    /// The same type with its class replaced.
    pub fn with_class(self, class: ClassVector) -> (r: RType)
        ensures
            r == (RType { class, ..self }),
    {
        RType { class, ..self }
    }

    /// The same type with its field schema replaced.
    pub fn with_columns(self, schema: ColumnSchema) -> (r: RType)
        ensures
            r == (RType { columns: Some(schema), ..self }),
    {
        RType { columns: Some(schema), ..self }
    }

    /// The union of `members` (see `union_of`).
    pub fn union(members: Vec<RType>) -> (r: RType)
        ensures
            union_of(members@, r),
    {
        let mut members = members;
        if members.len() == 0 {
            return RType::unknown();
        }
        if members.len() == 1 {
            let only = members.pop().unwrap();
            return only;
        }
        let first = members[0].length;
        let mut same = true;
        let mut i: usize = 0;
        while i < members.len()
            invariant
                i <= members@.len(),
                members@.len() >= 2,
                first == members@[0].length,
                same == (forall|k: int| 0 <= k < i ==> #[trigger] members@[k].length == first),
            decreases members.len() - i,
        {
            if members[i].length != first {
                same = false;
            }
            i = i + 1;
        }
        let length = if same {
            first
        } else {
            Length::Unknown
        };
        RType {
            mode: Mode::Union,
            length,
            class: ClassVector::empty(),
            members: Some(members),
            columns: None,
        }
    }

    /// The join of two types (see `join_of`).
    pub fn join(self, other: RType) -> (r: RType)
        ensures
            join_of(self, other, r),
    {
        if same_type(&self, &other) {
            return self;
        }
        if self.mode == Mode::Opaque || other.mode == Mode::Opaque {
            return RType::unknown();
        }
        let ghost a = self;
        let ghost b = other;
        let mut ms: Vec<RType> = Vec::new();
        assert(dedup_of(ms@, Seq::<RType>::empty()));
        push_parts(&mut ms, self, Ghost(Seq::empty()));
        assert(Seq::<RType>::empty() + parts(a) == parts(a));
        push_parts(&mut ms, other, Ghost(parts(a)));
        let ghost built = ms@;
        let r = RType::union(ms);
        assert(dedup_of(built, parts(a) + parts(b)) && union_of(built, r));
        r
    }
}

/// Structural equality is reflexive.
pub proof fn lemma_ty_eq_refl(t: RType)
    ensures
        ty_eq(t, t),
    decreases t,
{
    if let Some(ms) = t.members {
        assert forall|i: int| 0 <= i < ms@.len() implies ty_eq(#[trigger] ms@[i], ms@[i]) by {
            lemma_member_decreases(t, i);
            lemma_ty_eq_refl(ms@[i]);
        }
    }
    if let Some(schema) = t.columns {
        assert forall|i: int| 0 <= i < schema.columns@.len() implies (
        #[trigger] schema.columns@[i]).0@ == schema.columns@[i].0@ && ty_eq(
            schema.columns@[i].1,
            schema.columns@[i].1,
        ) by {
            lemma_column_decreases(t, i);
            lemma_ty_eq_refl(schema.columns@[i].1);
        }
    }
}

/// Append `x` to `ms` unless `ms` already holds a structurally equal type.
fn push_unique(ms: &mut Vec<RType>, x: RType, Ghost(seen): Ghost<Seq<RType>>)
    requires
        dedup_of(old(ms)@, seen),
    ensures
        dedup_of(final(ms)@, seen.push(x)),
{
    let ghost old_ms = ms@;
    let mut j: usize = 0;
    while j < ms.len()
        invariant
            j <= ms@.len(),
            ms@ == old_ms,
            dedup_of(old_ms, seen),
            forall|k: int| 0 <= k < j ==> !ty_eq(#[trigger] ms@[k], x),
        decreases ms.len() - j,
    {
        if same_type(&ms[j], &x) {
            assert forall|i: int| 0 <= i < seen.push(x).len() implies covered(
                #[trigger] seen.push(x)[i],
                ms@,
            ) by {
                if i < seen.len() {
                    assert(seen.push(x)[i] == seen[i]);
                } else {
                    assert(ty_eq(ms@[j as int], x));
                }
            }
            assert forall|k: int| 0 <= k < ms@.len() implies covered(
                #[trigger] ms@[k],
                seen.push(x),
            ) by {
                assert(covered(ms@[k], seen));
                let w = choose|w: int| 0 <= w < seen.len() && ty_eq(#[trigger] seen[w], ms@[k]);
                assert(seen.push(x)[w] == seen[w]);
            }
            return;
        }
        j = j + 1;
    }
    proof {
        lemma_ty_eq_refl(x);
    }
    ms.push(x);
    let ghost src = seen.push(x);
    assert forall|i: int| 0 <= i < src.len() implies covered(#[trigger] src[i], ms@) by {
        if i < seen.len() {
            assert(src[i] == seen[i]);
            assert(covered(seen[i], old_ms));
            let w = choose|w: int| 0 <= w < old_ms.len() && ty_eq(#[trigger] old_ms[w], seen[i]);
            assert(ms@[w] == old_ms[w]);
        } else {
            assert(ms@[old_ms.len() as int] == x);
        }
    }
    assert forall|k: int| 0 <= k < ms@.len() implies covered(#[trigger] ms@[k], src) by {
        if k < old_ms.len() {
            assert(ms@[k] == old_ms[k]);
            assert(covered(old_ms[k], seen));
            let w = choose|w: int| 0 <= w < seen.len() && ty_eq(#[trigger] seen[w], old_ms[k]);
            assert(src[w] == seen[w]);
        } else {
            assert(src[seen.len() as int] == x);
        }
    }
    assert forall|a: int, b: int| 0 <= a < b < ms@.len() implies !ty_eq(
        #[trigger] ms@[a],
        #[trigger] ms@[b],
    ) by {
        if b < old_ms.len() {
            assert(ms@[a] == old_ms[a]);
            assert(ms@[b] == old_ms[b]);
        } else {
            assert(ms@[a] == old_ms[a]);
        }
    }
}

/// Append to `ms` each alternative of `t` that `ms` does not yet hold.
fn push_parts(ms: &mut Vec<RType>, t: RType, Ghost(seen): Ghost<Seq<RType>>)
    requires
        dedup_of(old(ms)@, seen),
    ensures
        dedup_of(final(ms)@, seen + parts(t)),
{
    if t.mode == Mode::Union && t.members.is_some() {
        let ghost p = parts(t);
        let mut rest = t.members.unwrap();
        assert(p == rest@);
        let ghost all = rest@;
        assert(all.len() == rest.len());
        let mut k: usize = 0;
        while rest.len() > 0
            invariant
                k <= all.len(),
                all.len() <= usize::MAX,
                rest@ == all.subrange(k as int, all.len() as int),
                dedup_of(ms@, seen + all.take(k as int)),
            decreases rest.len(),
        {
            assert(k < all.len());
            let x = rest.remove(0);
            assert(x == all[k as int]);
            push_unique(ms, x, Ghost(seen + all.take(k as int)));
            assert((seen + all.take(k as int)).push(all[k as int]) == seen + all.take(k + 1));
            k = k + 1;
        }
        assert(all.take(k as int) == all);
    } else {
        assert(parts(t) == seq![t]);
        push_unique(ms, t, Ghost(seen));
        assert(seen.push(t) == seen + seq![t]);
    }
}

} // verus!
