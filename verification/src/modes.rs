//! Mode sets: compatibility, overlap, and provable incompatibility of types.
use vstd::prelude::*;
use crate::types::{Length, Mode, RType, class_has, has_known_class_spec, lemma_member_decreases};

verus! {

/// R's silent-coercion numeric family: logical, integer and double
/// interchange losslessly. Complex is excluded.
pub open spec fn numeric_spec(mode: Mode) -> bool {
    mode == Mode::Double || mode == Mode::Integer || mode == Mode::Logical
}

/// Whether `mode` is in the silent-coercion numeric family.
pub fn numeric_family(mode: Mode) -> (r: bool)
    ensures
        r == numeric_spec(mode),
{
    matches!(mode, Mode::Double | Mode::Integer | Mode::Logical)
}

/// Whether a callback return of `mode` coerces into `target` without a
/// lossy or surprising conversion. Opaque, union and NULL returns carry no
/// evidence of a mismatch.
pub fn modes_compatible(mode: &Mode, target: &Mode) -> (r: bool)
    ensures
        r == if *mode == Mode::Opaque || *mode == Mode::Union || *mode == Mode::Null {
            true
        } else if numeric_spec(*target) {
            numeric_spec(*mode)
        } else if *target == Mode::Character {
            *mode == Mode::Character
        } else {
            true
        },
{
    if matches!(mode, Mode::Opaque | Mode::Union | Mode::Null) {
        return true;
    }
    match target {
        Mode::Double | Mode::Integer | Mode::Logical => numeric_family(*mode),
        Mode::Character => matches!(mode, Mode::Character),
        _ => true,
    }
}

/// Every storage mode a type may hold, unions flattened recursively; a
/// union without a member list holds none.
pub open spec fn spec_modes(t: RType) -> Seq<Mode>
    decreases t, 1int, 0int,
{
    if t.mode == Mode::Union {
        match t.members {
            Some(ms) => member_modes(t, 0),
            None => seq![],
        }
    } else {
        seq![t.mode]
    }
}

/// The modes of the members of union `t` from index `i` on.
pub open spec fn member_modes(t: RType, i: int) -> Seq<Mode>
    decreases t, 0int, if t.members is Some { t.members->0@.len() - i } else { 0 },
{
    if t.members is None || i < 0 || i >= t.members->0@.len() {
        seq![]
    } else {
        proof {
            lemma_member_decreases(t, i);
        }
        spec_modes(t.members->0@[i]) + member_modes(t, i + 1)
    }
}

/// The storage modes a type may hold (see `spec_modes`).
pub fn modes_of(t: &RType) -> (r: Vec<Mode>)
    ensures
        r@ == spec_modes(*t),
    decreases t, 1int,
{
    match t.mode {
        Mode::Union => match &t.members {
            Some(members) => {
                let mut out: Vec<Mode> = Vec::new();
                let mut i: usize = members.len();
                // Build back to front so the suffix invariant is direct.
                while i > 0
                    invariant
                        i <= members@.len(),
                        t.members == Some(*members),
                        t.mode == Mode::Union,
                        out@ == member_modes(*t, i as int),
                    decreases i,
                {
                    i = i - 1;
                    proof {
                        lemma_member_decreases(*t, i as int);
                    }
                    let mut m = modes_of(&members[i]);
                    m.append(&mut out);
                    out = m;
                }
                out
            },
            None => Vec::new(),
        },
        mode => {
            let mut v = Vec::new();
            v.push(mode);
            v
        },
    }
}

/// `spec_modes` when it is fully knowable: nonempty and free of opaque
/// modes. `None` is a proof barrier, never evidence of a mismatch.
pub open spec fn spec_mode_set(t: RType) -> Option<Seq<Mode>> {
    let ms = spec_modes(t);
    if ms.len() > 0 && !ms.contains(Mode::Opaque) {
        Some(ms)
    } else {
        None
    }
}

/// Whether `m` occurs in `v`.
fn contains_mode(v: &Vec<Mode>, m: Mode) -> (r: bool)
    ensures
        r == v@.contains(m),
{
    let mut i: usize = 0;
    while i < v.len()
        invariant
            i <= v@.len(),
            forall|k: int| 0 <= k < i ==> v@[k] != m,
        decreases v.len() - i,
    {
        if v[i] == m {
            return true;
        }
        i = i + 1;
    }
    false
}

/// The fully knowable mode set of a type (see `spec_mode_set`).
pub fn mode_set(t: &RType) -> (r: Option<Vec<Mode>>)
    ensures
        match r {
            Some(v) => spec_mode_set(*t) == Some(v@),
            None => spec_mode_set(*t) is None,
        },
{
    let modes = modes_of(t);
    if modes.len() > 0 && !contains_mode(&modes, Mode::Opaque) {
        Some(modes)
    } else {
        None
    }
}

/// Whether two narrowing types share a storage mode. Opaque is a mode
/// matching only itself; length and class are ignored.
pub fn types_intersect(left: &RType, right: &RType) -> (r: bool)
    ensures
        r == exists|i: int|
            0 <= i < spec_modes(*left).len() && spec_modes(*right).contains(
                #[trigger] spec_modes(*left)[i],
            ),
{
    let l = modes_of(left);
    let rr = modes_of(right);
    let mut i: usize = 0;
    while i < l.len()
        invariant
            i <= l@.len(),
            l@ == spec_modes(*left),
            rr@ == spec_modes(*right),
            forall|k: int| 0 <= k < i ==> !rr@.contains(#[trigger] l@[k]),
        decreases l.len() - i,
    {
        if contains_mode(&rr, l[i]) {
            return true;
        }
        i = i + 1;
    }
    false
}

/// Whether an actual of mode `actual` satisfies an expected `expected`:
/// equal modes, or both in the numeric family.
pub open spec fn compatible_spec(actual: Mode, expected: Mode) -> bool {
    actual == expected || (numeric_spec(actual) && numeric_spec(expected))
}

/// Whether two modes are compatible for argument checking.
pub fn compatible_mode_pair(actual: Mode, expected: Mode) -> (r: bool)
    ensures
        r == compatible_spec(actual, expected),
{
    actual == expected || (numeric_family(actual) && numeric_family(expected))
}

/// An argument type is provably incompatible with an expected type: both
/// mode sets are knowable and no pair of modes is compatible.
pub open spec fn incompatible_spec(actual: RType, expected: RType) -> bool {
    match (spec_mode_set(actual), spec_mode_set(expected)) {
        (Some(a), Some(e)) => !exists|i: int, j: int|
            0 <= i < a.len() && 0 <= j < e.len() && compatible_spec(
                #[trigger] a[i],
                #[trigger] e[j],
            ),
        _ => false,
    }
}

/// Whether RY092 may report `actual` against `expected`.
pub fn types_provably_incompatible(actual: &RType, expected: &RType) -> (r: bool)
    ensures
        r == incompatible_spec(*actual, *expected),
{
    let a = match mode_set(actual) {
        Some(a) => a,
        None => return false,
    };
    let e = match mode_set(expected) {
        Some(e) => e,
        None => return false,
    };
    let mut i: usize = 0;
    while i < a.len()
        invariant
            i <= a@.len(),
            spec_mode_set(*actual) == Some(a@),
            spec_mode_set(*expected) == Some(e@),
            forall|x: int, y: int|
                0 <= x < i && 0 <= y < e@.len() ==> !compatible_spec(#[trigger] a@[x], #[trigger] e@[y]),
        decreases a.len() - i,
    {
        let mut j: usize = 0;
        while j < e.len()
            invariant
                i < a@.len(),
                j <= e@.len(),
                spec_mode_set(*actual) == Some(a@),
                spec_mode_set(*expected) == Some(e@),
                forall|x: int, y: int|
                    0 <= x < i && 0 <= y < e@.len() ==> !compatible_spec(
                        #[trigger] a@[x],
                        #[trigger] e@[y],
                    ),
                forall|y: int| 0 <= y < j ==> !compatible_spec(a@[i as int], #[trigger] e@[y]),
            decreases e.len() - j,
        {
            if compatible_mode_pair(a[i], e[j]) {
                assert(compatible_spec(a@[i as int], e@[j as int]));
                let ghost sa = spec_mode_set(*actual)->0;
                let ghost se = spec_mode_set(*expected)->0;
                assert(sa[i as int] == a@[i as int]);
                assert(se[j as int] == e@[j as int]);
                assert(compatible_spec(sa[i as int], se[j as int]));
                return false;
            }
            j = j + 1;
        }
        i = i + 1;
    }
    true
}

/// The alternatives of a type, unions flattened recursively; a union
/// without a member list stands for itself.
pub open spec fn spec_members(t: RType) -> Seq<RType>
    decreases t, 1int, 0int,
{
    if t.mode == Mode::Union {
        match t.members {
            Some(ms) => member_types(t, 0),
            None => seq![t],
        }
    } else {
        seq![t]
    }
}

/// The flattened alternatives of the members of union `t` from index `i` on.
pub open spec fn member_types(t: RType, i: int) -> Seq<RType>
    decreases t, 0int, if t.members is Some { t.members->0@.len() - i } else { 0 },
{
    if t.members is None || i < 0 || i >= t.members->0@.len() {
        seq![]
    } else {
        proof {
            lemma_member_decreases(t, i);
        }
        spec_members(t.members->0@[i]) + member_types(t, i + 1)
    }
}

/// The types a sequence of references points to.
pub open spec fn derefs(s: Seq<&RType>) -> Seq<RType> {
    Seq::new(s.len(), |i: int| *s[i])
}

/// The flattened alternatives of a type (see `spec_members`).
fn members_of<'a>(t: &'a RType) -> (r: Vec<&'a RType>)
    ensures
        derefs(r@) == spec_members(*t),
    decreases t, 1int,
{
    if t.mode == Mode::Union {
        match &t.members {
            Some(members) => {
                let mut out: Vec<&RType> = Vec::new();
                let mut i: usize = members.len();
                while i > 0
                    invariant
                        i <= members@.len(),
                        t.members == Some(*members),
                        t.mode == Mode::Union,
                        derefs(out@) == member_types(*t, i as int),
                    decreases i,
                {
                    i = i - 1;
                    proof {
                        lemma_member_decreases(*t, i as int);
                    }
                    let mut m = members_of(&members[i]);
                    let ghost mv = m@;
                    let ghost ov = out@;
                    m.append(&mut out);
                    assert(derefs(m@) =~= derefs(mv) + derefs(ov));
                    out = m;
                }
                out
            },
            None => {
                let mut v = Vec::new();
                v.push(t);
                assert(derefs(v@) =~= seq![*t]);
                v
            },
        }
    } else {
        let mut v = Vec::new();
        v.push(t);
        assert(derefs(v@) =~= seq![*t]);
        v
    }
}

/// Whether two lengths may describe the same value.
pub open spec fn lengths_overlap_spec(actual: Length, expected: Length) -> bool {
    actual == Length::Unknown || expected == Length::Unknown || actual == expected
}

/// Whether the class of `actual` may satisfy the class `expected` demands.
pub open spec fn classes_overlap_spec(actual: RType, expected: RType) -> bool {
    if !has_known_class_spec(expected.class) {
        true
    } else if !actual.class.known {
        true
    } else {
        exists|i: int|
            0 <= i < expected.class.names@.len() && class_has(
                actual.class,
                (#[trigger] expected.class.names@[i])@,
            )
    }
}

/// Whether a value of shape `actual` may pass an exact assertion of `expected`.
pub open spec fn shapes_overlap_spec(actual: RType, expected: RType) -> bool {
    &&& (actual.mode == Mode::Opaque || expected.mode == Mode::Opaque || actual.mode == expected.mode)
    &&& lengths_overlap_spec(actual.length, expected.length)
    &&& classes_overlap_spec(actual, expected)
}

fn classes_overlap(actual: &RType, expected: &RType) -> (r: bool)
    ensures
        r == classes_overlap_spec(*actual, *expected),
{
    if !expected.class.has_known_class() {
        return true;
    }
    if actual.class.is_unknown() {
        return true;
    }
    let mut i: usize = 0;
    while i < expected.class.names.len()
        invariant
            i <= expected.class.names@.len(),
            forall|k: int|
                0 <= k < i ==> !class_has(actual.class, (#[trigger] expected.class.names@[k])@),
        decreases expected.class.names.len() - i,
    {
        if actual.class.contains(expected.class.names[i].as_str()) {
            return true;
        }
        i = i + 1;
    }
    false
}

fn shapes_overlap(actual: &RType, expected: &RType) -> (r: bool)
    ensures
        r == shapes_overlap_spec(*actual, *expected),
{
    let modes_overlap = actual.mode == Mode::Opaque || expected.mode == Mode::Opaque
        || actual.mode == expected.mode;
    let lengths_overlap = actual.length == Length::Unknown || expected.length == Length::Unknown
        || actual.length == expected.length;
    modes_overlap && lengths_overlap && classes_overlap(actual, expected)
}

/// Every value `actual` may take is rejected by an exact standalone
/// assertion of `expected`: no pair of alternatives overlaps in mode,
/// length and class (opaque modes and unknown lengths always overlap).
pub open spec fn rejects_spec(actual: RType, expected: RType) -> bool {
    !exists|i: int, j: int|
        0 <= i < spec_members(actual).len() && 0 <= j < spec_members(expected).len()
            && shapes_overlap_spec(
            #[trigger] spec_members(actual)[i],
            #[trigger] spec_members(expected)[j],
        )
}

/// Whether a standalone check accepting `expected` provably rejects `actual`.
pub fn standalone_check_provably_rejects(actual: &RType, expected: &RType) -> (r: bool)
    ensures
        r == rejects_spec(*actual, *expected),
{
    let a = members_of(actual);
    let e = members_of(expected);
    let mut i: usize = 0;
    while i < a.len()
        invariant
            i <= a@.len(),
            derefs(a@) == spec_members(*actual),
            derefs(e@) == spec_members(*expected),
            forall|x: int, y: int|
                0 <= x < i && 0 <= y < e@.len() ==> !shapes_overlap_spec(
                    *#[trigger] a@[x],
                    *#[trigger] e@[y],
                ),
        decreases a.len() - i,
    {
        let mut j: usize = 0;
        while j < e.len()
            invariant
                i < a@.len(),
                j <= e@.len(),
                derefs(a@) == spec_members(*actual),
                derefs(e@) == spec_members(*expected),
                forall|x: int, y: int|
                    0 <= x < i && 0 <= y < e@.len() ==> !shapes_overlap_spec(
                        *#[trigger] a@[x],
                        *#[trigger] e@[y],
                    ),
                forall|y: int| 0 <= y < j ==> !shapes_overlap_spec(*a@[i as int], *#[trigger] e@[y]),
            decreases e.len() - j,
        {
            if shapes_overlap(a[i], e[j]) {
                assert(shapes_overlap_spec(*a@[i as int], *e@[j as int]));
                assert(spec_members(*actual)[i as int] == *a@[i as int]);
                assert(spec_members(*expected)[j as int] == *e@[j as int]);
                return false;
            }
            j = j + 1;
        }
        i = i + 1;
    }
    assert forall|x: int, y: int|
        0 <= x < spec_members(*actual).len() && 0 <= y < spec_members(*expected).len()
            implies !shapes_overlap_spec(
        #[trigger] spec_members(*actual)[x],
        #[trigger] spec_members(*expected)[y],
    ) by {
        assert(spec_members(*actual)[x] == *a@[x]);
        assert(spec_members(*expected)[y] == *e@[y]);
    }
    true
}

/// The text R's documentation uses for a mode.
pub open spec fn mode_text(m: Mode) -> Seq<char> {
    match m {
        Mode::Logical => "logical"@,
        Mode::Integer => "integer"@,
        Mode::Double => "double"@,
        Mode::Complex => "complex"@,
        Mode::Character => "character"@,
        Mode::Raw => "raw"@,
        Mode::List => "list"@,
        Mode::Null => "NULL"@,
        Mode::Function => "function"@,
        Mode::Opaque => "unknown"@,
        Mode::Union => "union"@,
    }
}

/// The name of a mode, as diagnostics print it.
pub fn mode_name(m: Mode) -> (r: &'static str)
    ensures
        r@ == mode_text(m),
{
    match m {
        Mode::Logical => "logical",
        Mode::Integer => "integer",
        Mode::Double => "double",
        Mode::Complex => "complex",
        Mode::Character => "character",
        Mode::Raw => "raw",
        Mode::List => "list",
        Mode::Null => "NULL",
        Mode::Function => "function",
        Mode::Opaque => "unknown",
        Mode::Union => "union",
    }
}

/// The names of `ms` joined by ` or `.
pub open spec fn joined_or(ms: Seq<Mode>) -> Seq<char>
    decreases ms.len(),
{
    if ms.len() == 0 {
        seq![]
    } else if ms.len() == 1 {
        mode_text(ms[0])
    } else {
        joined_or(ms.drop_last()) + " or "@ + mode_text(ms.last())
    }
}

/// The wording RY092 uses for an expected type.
pub open spec fn label_spec(expected: RType) -> Seq<char> {
    match spec_mode_set(expected) {
        None => "unknown"@,
        Some(ms) => if ms.len() >= 3 && forall|i: int|
            0 <= i < ms.len() ==> numeric_spec(#[trigger] ms[i]) || ms[i] == Mode::Complex {
            "numeric"@
        } else {
            joined_or(ms)
        },
    }
}

/// Message wording for an expected type: `unknown` when its modes are not
/// knowable, `numeric` for a union of three or more modes from the
/// logical..complex ladder, else the mode names joined by ` or `.
pub fn expected_type_label(expected: &RType) -> (r: String)
    ensures
        r@ == label_spec(*expected),
{
    let modes = match mode_set(expected) {
        None => return String::from_str("unknown"),
        Some(modes) => modes,
    };
    if modes.len() >= 3 {
        let mut all = true;
        let mut i: usize = 0;
        while i < modes.len()
            invariant
                i <= modes@.len(),
                all == forall|k: int|
                    0 <= k < i ==> numeric_spec(#[trigger] modes@[k]) || modes@[k] == Mode::Complex,
            decreases modes.len() - i,
        {
            if !(numeric_family(modes[i]) || modes[i] == Mode::Complex) {
                all = false;
            }
            i = i + 1;
        }
        if all {
            return String::from_str("numeric");
        }
    }
    let mut out = String::from_str(mode_name(modes[0]));
    let mut i: usize = 1;
    assert(modes@.take(1).drop_last() =~= seq![]);
    assert(joined_or(modes@.take(1)) == mode_text(modes@[0]));
    while i < modes.len()
        invariant
            1 <= i <= modes@.len(),
            out@ == joined_or(modes@.take(i as int)),
        decreases modes.len() - i,
    {
        out.append(" or ");
        out.append(mode_name(modes[i]));
        assert(modes@.take(i + 1).drop_last() =~= modes@.take(i as int));
        i = i + 1;
    }
    assert(modes@.take(modes@.len() as int) =~= modes@);
    out
}

} // verus!
