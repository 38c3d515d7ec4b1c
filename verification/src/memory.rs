//! The object heap and the global-variable table.
//!
//! The heap is an append-only arena of string payloads: nothing is ever
//! freed, so a handle (arena index) stays valid for the life of the memory.
//! Strings are interned: equal content is stored once, so handle equality
//! coincides with content equality. The globals table maps interned-string
//! handles to current values, with the kind-checked assignment rule the
//! language defines.

use vstd::prelude::*;
use vstd::string::StringSliceAdditionalSpecFns;
use crate::err::VmError;
use crate::text::{bytes_eq, extend_bytes, extend_str};
use crate::value::{Object, ObjString, ObjectPointer, StringPointer, Type, spec_types_equal};

verus! {

/// First index at or after `a` whose entry holds `s`, or -1 when none does.
pub open spec fn spec_find_from(heap: Seq<Seq<u8>>, s: Seq<u8>, a: int) -> int
    decreases heap.len() - a,
{
    if a < 0 || a >= heap.len() {
        -1
    } else if heap[a] == s {
        a
    } else {
        spec_find_from(heap, s, a + 1)
    }
}

/// First arena slot holding `s`, or -1 when `s` is not interned yet.
pub open spec fn spec_find_str(heap: Seq<Seq<u8>>, s: Seq<u8>) -> int {
    spec_find_from(heap, s, 0)
}

/// Interning: the heap after interning `s`, and the slot that holds `s`.
/// An already-present content leaves the heap unchanged; a new one is
/// appended.
pub open spec fn spec_intern(heap: Seq<Seq<u8>>, s: Seq<u8>) -> (Seq<Seq<u8>>, int) {
    let i = spec_find_str(heap, s);
    if i >= 0 {
        (heap, i)
    } else {
        (heap.push(s), heap.len() as int)
    }
}

/// A sequence extension: the new sequence keeps every entry of the old one.
/// The heap and the constant pool only ever grow this way.
pub open spec fn spec_seq_extends<A>(new: Seq<A>, old: Seq<A>) -> bool {
    old.len() <= new.len() && forall|i: int| 0 <= i < old.len() ==> new[i] == old[i]
}

/// Sequence extension is transitive.
pub proof fn lemma_seq_extends_trans<A>(a: Seq<A>, b: Seq<A>, c: Seq<A>)
    requires
        spec_seq_extends(b, a),
        spec_seq_extends(c, b),
    ensures
        spec_seq_extends(c, a),
{
}

/// No two arena slots hold the same content.
pub open spec fn spec_heap_unique(heap: Seq<Seq<u8>>) -> bool {
    forall|i: int, j: int| 0 <= i < j < heap.len() ==> heap[i] != heap[j]
}

/// A value's object reference, if any, points into the heap.
pub open spec fn spec_value_wf(v: Type, heap_len: nat) -> bool {
    match v {
        Type::Object(ObjectPointer::String(p)) => p.0 < heap_len,
        _ => true,
    }
}

/// Whether some entry of the association list carries key `k`.
pub open spec fn spec_assoc_has(s: Seq<(StringPointer, Type)>, k: int) -> bool {
    exists|i: int| 0 <= i < s.len() && s[i].0.0 == k
}

/// The mapping an association list stands for; well-defined when keys are
/// unique.
pub open spec fn spec_assoc_map(s: Seq<(StringPointer, Type)>) -> Map<int, Type> {
    Map::new(
        |k: int| spec_assoc_has(s, k),
        |k: int|
            {
                let i = choose|i: int| 0 <= i < s.len() && s[i].0.0 == k;
                s[i].1
            },
    )
}

/// No two entries of the association list carry the same key.
pub open spec fn spec_assoc_unique(s: Seq<(StringPointer, Type)>) -> bool {
    forall|i: int, j: int| 0 <= i < j < s.len() ==> s[i].0.0 != s[j].0.0
}

/// The diagnostic text for a read or write of an undefined global.
pub open spec fn spec_undefined_variable_message(name: Seq<u8>) -> Seq<u8> {
    "Undefined variable '".spec_bytes() + name + "'".spec_bytes()
}

/// The diagnostic text for an assignment that changes a global's kind.
pub open spec fn spec_type_mismatch_message() -> Seq<u8> {
    "Type mismatch.".spec_bytes()
}

/// Walking `spec_find_from` over a stretch with no match does not change it.
pub proof fn lemma_find_from_skip(heap: Seq<Seq<u8>>, s: Seq<u8>, a: int, b: int)
    requires
        0 <= a <= b <= heap.len(),
        forall|j: int| a <= j < b ==> heap[j] != s,
    ensures
        spec_find_from(heap, s, a) == spec_find_from(heap, s, b),
    decreases b - a,
{
    if a < b {
        lemma_find_from_skip(heap, s, a + 1, b);
    }
}

/// A found slot with no earlier match is the result of `spec_find_str`.
pub proof fn lemma_find_str_at(heap: Seq<Seq<u8>>, s: Seq<u8>, i: int)
    requires
        0 <= i < heap.len(),
        heap[i] == s,
        forall|j: int| 0 <= j < i ==> heap[j] != s,
    ensures
        spec_find_str(heap, s) == i,
{
    lemma_find_from_skip(heap, s, 0, i);
}

/// When no slot holds `s`, `spec_find_str` reports -1.
pub proof fn lemma_find_str_absent(heap: Seq<Seq<u8>>, s: Seq<u8>)
    requires
        forall|j: int| 0 <= j < heap.len() ==> heap[j] != s,
    ensures
        spec_find_str(heap, s) == -1,
{
    lemma_find_from_skip(heap, s, 0, heap.len() as int);
}

/// What `spec_find_from` finds: -1 means no slot from `a` on holds `s`; a
/// nonnegative result is the first such slot.
pub proof fn lemma_find_from_range(heap: Seq<Seq<u8>>, s: Seq<u8>, a: int)
    requires
        0 <= a <= heap.len(),
    ensures
        ({
            let r = spec_find_from(heap, s, a);
            &&& (r == -1 ==> forall|j: int| a <= j < heap.len() ==> heap[j] != s)
            &&& (r != -1 ==> a <= r < heap.len() && heap[r] == s && forall|j: int|
                a <= j < r ==> heap[j] != s)
        }),
    decreases heap.len() - a,
{
    if a < heap.len() && heap[a] != s {
        lemma_find_from_range(heap, s, a + 1);
    }
}

/// The object heap plus the global-variable table.
pub struct Memory {
    strings: Vec<ObjString>,
    globals: Vec<(StringPointer, Type)>,
}

impl Memory {
    /// The content of each arena slot, in allocation order.
    pub closed spec fn heap_view(&self) -> Seq<Seq<u8>> {
        Seq::new(self.strings@.len(), |i: int| self.strings@[i]@)
    }

    /// The raw association list behind the globals table.
    pub closed spec fn globals_seq(&self) -> Seq<(StringPointer, Type)> {
        self.globals@
    }

    /// The globals table as a mapping from handle index to value.
    pub open spec fn globals_view(&self) -> Map<int, Type> {
        spec_assoc_map(self.globals_seq())
    }

    /// Internal consistency: interned contents are unique, global keys are
    /// unique, and every handle held by a key or value points into the heap.
    pub open spec fn wf(&self) -> bool {
        &&& spec_heap_unique(self.heap_view())
        &&& spec_assoc_unique(self.globals_seq())
        &&& forall|i: int|
            0 <= i < self.globals_seq().len() ==> (#[trigger] self.globals_seq()[i]).0.0
                < self.heap_view().len()
        &&& forall|i: int|
            0 <= i < self.globals_seq().len() ==> spec_value_wf(
                (#[trigger] self.globals_seq()[i]).1,
                self.heap_view().len(),
            )
    }

    /// An empty memory: nothing interned, no globals.
    pub fn new() -> (r: Self)
        ensures
            r.wf(),
            r.heap_view().len() == 0,
            r.globals_view() == Map::<int, Type>::empty(),
    {
        let r = Memory { strings: Vec::new(), globals: Vec::new() };
        proof {
            assert(r.globals_view() =~= Map::<int, Type>::empty());
        }
        r
    }

    /// Clears the memory back to its initial state.
    pub fn initialize_memory(&mut self)
        ensures
            final(self).wf(),
            final(self).heap_view().len() == 0,
            final(self).globals_view() == Map::<int, Type>::empty(),
    {
        self.strings = Vec::new();
        self.globals = Vec::new();
        proof {
            assert(self.globals_view() =~= Map::<int, Type>::empty());
        }
    }

    /// Interns `string`: returns the handle of the arena slot holding that
    /// content, allocating a new slot only when the content is new. Equal
    /// content always yields the same handle.
    pub fn allocate_string(&mut self, string: &[u8]) -> (r: StringPointer)
        requires
            old(self).wf(),
        ensures
            final(self).wf(),
            final(self).heap_view() == spec_intern(old(self).heap_view(), string@).0,
            r.0 as int == spec_intern(old(self).heap_view(), string@).1,
            final(self).globals_seq() == old(self).globals_seq(),
            r.0 < final(self).heap_view().len(),
            final(self).heap_view()[r.0 as int] == string@,
            old(self).heap_view().len() <= final(self).heap_view().len(),
            forall|i: int|
                0 <= i < old(self).heap_view().len() ==> final(self).heap_view()[i] == old(
                    self,
                ).heap_view()[i],
    {
        let n = self.strings.len();
        let mut i: usize = 0;
        while i < n
            invariant
                *self == *old(self),
                self.wf(),
                n == self.strings@.len(),
                i <= n,
                forall|j: int| 0 <= j < i ==> self.heap_view()[j] != string@,
            decreases n - i,
        {
            if bytes_eq(self.strings[i].bytes().as_slice(), string) {
                proof {
                    lemma_find_str_at(self.heap_view(), string@, i as int);
                }
                return StringPointer::new(i);
            }
            i += 1;
        }
        proof {
            lemma_find_str_absent(self.heap_view(), string@);
        }
        self.strings.push(ObjString::new(string));
        proof {
            assert(self.heap_view() =~= old(self).heap_view().push(string@));
        }
        StringPointer::new(n)
    }

    /// Places a heap object: its payload is interned like any string, and the
    /// handle of the slot holding it comes back.
    pub fn allocate_object(&mut self, obj: Object) -> (r: ObjectPointer)
        requires
            old(self).wf(),
        ensures
            final(self).wf(),
            match obj {
                Object::String(s) => {
                    &&& final(self).heap_view() == spec_intern(old(self).heap_view(), s@).0
                    &&& r matches ObjectPointer::String(p) && p.0 as int == spec_intern(
                        old(self).heap_view(),
                        s@,
                    ).1
                },
            },
            final(self).globals_seq() == old(self).globals_seq(),
    {
        match obj {
            Object::String(s) => {
                let p = self.allocate_string(s.bytes().as_slice());
                ObjectPointer::String(p)
            },
        }
    }

    /// Looks a global up by handle.
    pub fn get_global(&self, key: StringPointer) -> (r: Option<Type>)
        requires
            self.wf(),
        ensures
            match r {
                Some(v) => self.globals_view().contains_key(key.0 as int)
                    && self.globals_view()[key.0 as int] == v,
                None => !self.globals_view().contains_key(key.0 as int),
            },
    {
        let n = self.globals.len();
        let mut i: usize = 0;
        while i < n
            invariant
                self.wf(),
                n == self.globals_seq().len(),
                i <= n,
                forall|j: int| 0 <= j < i ==> self.globals_seq()[j].0.0 != key.0,
            decreases n - i,
        {
            let (k, v) = self.globals[i];
            if k.0 == key.0 {
                proof {
                    let w = choose|w: int|
                        0 <= w < self.globals_seq().len() && self.globals_seq()[w].0.0
                            == key.0 as int;
                    assert(self.globals_seq()[i as int].0.0 == key.0 as int);
                    assert(w == i as int);
                }
                return Some(v);
            }
            i += 1;
        }
        proof {
            assert(!spec_assoc_has(self.globals_seq(), key.0 as int));
        }
        None
    }

    /// Defines or overwrites a global unconditionally, returning the value it
    /// held before, if any.
    pub fn set_global(&mut self, key: StringPointer, value: Type) -> (r: Option<Type>)
        requires
            old(self).wf(),
            key.0 < old(self).heap_view().len(),
            spec_value_wf(value, old(self).heap_view().len()),
        ensures
            final(self).wf(),
            final(self).heap_view() == old(self).heap_view(),
            final(self).globals_view() == old(self).globals_view().insert(key.0 as int, value),
            match r {
                Some(v) => old(self).globals_view().contains_key(key.0 as int) && old(
                    self,
                ).globals_view()[key.0 as int] == v,
                None => !old(self).globals_view().contains_key(key.0 as int),
            },
    {
        let n = self.globals.len();
        let mut i: usize = 0;
        while i < n
            invariant
                *self == *old(self),
                self.wf(),
                key.0 < self.heap_view().len(),
                spec_value_wf(value, self.heap_view().len()),
                n == self.globals_seq().len(),
                i <= n,
                forall|j: int| 0 <= j < i ==> self.globals_seq()[j].0.0 != key.0,
            decreases n - i,
        {
            let (k, v) = self.globals[i];
            if k.0 == key.0 {
                self.globals.remove(i);
                self.globals.insert(i, (key, value));
                proof {
                    assert(self.globals_seq() =~= old(self).globals_seq().update(
                        i as int,
                        (key, value),
                    ));
                    lemma_assoc_update(old(self).globals_seq(), i as int, key, value);
                    let w = choose|w: int|
                        0 <= w < old(self).globals_seq().len() && old(self).globals_seq()[w].0.0
                            == key.0 as int;
                    assert(w == i as int);
                }
                return Some(v);
            }
            i += 1;
        }
        self.globals.push((key, value));
        proof {
            assert(!spec_assoc_has(old(self).globals_seq(), key.0 as int));
            assert(self.globals_seq() =~= old(self).globals_seq().push((key, value)));
            lemma_assoc_push(old(self).globals_seq(), key, value);
        }
        None
    }

    /// Removes a global, if present.
    pub fn remove_global(&mut self, key: StringPointer)
        requires
            old(self).wf(),
        ensures
            final(self).wf(),
            final(self).heap_view() == old(self).heap_view(),
            final(self).globals_view() == old(self).globals_view().remove(key.0 as int),
    {
        let n = self.globals.len();
        let mut i: usize = 0;
        while i < n
            invariant
                *self == *old(self),
                self.wf(),
                n == self.globals_seq().len(),
                i <= n,
                forall|j: int| 0 <= j < i ==> self.globals_seq()[j].0.0 != key.0,
            decreases n - i,
        {
            let (k, _) = self.globals[i];
            if k.0 == key.0 {
                self.globals.remove(i);
                proof {
                    assert(self.globals_seq() =~= old(self).globals_seq().remove(i as int));
                    lemma_assoc_remove(old(self).globals_seq(), i as int);
                }
                return ;
            }
            i += 1;
        }
        proof {
            assert(!spec_assoc_has(self.globals_seq(), key.0 as int));
            assert(self.globals_view() =~= old(self).globals_view().remove(key.0 as int));
        }
    }

    /// Assigns to an already-defined global. Fails (leaving the table
    /// unchanged) when the name is undefined, or when the new value's kind
    /// does not match the old one's; a slot holding nil accepts any kind.
    pub fn assign_global(&mut self, key: StringPointer, value: Type) -> (r: Result<(), VmError>)
        requires
            old(self).wf(),
            key.0 < old(self).heap_view().len(),
            spec_value_wf(value, old(self).heap_view().len()),
        ensures
            final(self).wf(),
            final(self).heap_view() == old(self).heap_view(),
            match r {
                Ok(_) => {
                    &&& old(self).globals_view().contains_key(key.0 as int)
                    &&& spec_types_equal(old(self).globals_view()[key.0 as int], value)
                    &&& final(self).globals_view() == old(self).globals_view().insert(
                        key.0 as int,
                        value,
                    )
                },
                Err(e) => {
                    &&& final(self).globals_view() == old(self).globals_view()
                    &&& e.code == 70
                    &&& if !old(self).globals_view().contains_key(key.0 as int) {
                        e.message@ == spec_undefined_variable_message(
                            old(self).heap_view()[key.0 as int],
                        )
                    } else {
                        !spec_types_equal(old(self).globals_view()[key.0 as int], value)
                            && e.message@ == spec_type_mismatch_message()
                    }
                },
            },
    {
        match self.get_global(key) {
            None => {
                let mut msg: Vec<u8> = Vec::new();
                extend_str(&mut msg, "Undefined variable '");
                extend_bytes(&mut msg, self.strings[key.0].bytes().as_slice());
                extend_str(&mut msg, "'");
                VmError::new(msg)
            },
            Some(old_value) => {
                if !old_value.types_equal(&value) {
                    let mut msg: Vec<u8> = Vec::new();
                    extend_str(&mut msg, "Type mismatch.");
                    VmError::new(msg)
                } else {
                    self.set_global(key, value);
                    Ok(())
                }
            },
        }
    }

    /// Reads the content behind a string handle.
    pub fn string_content(&self, key: StringPointer) -> (r: &Vec<u8>)
        requires
            key.0 < self.heap_view().len(),
        ensures
            r@ == self.heap_view()[key.0 as int],
    {
        self.strings[key.0].bytes()
    }
}

/// Updating the entry at a key's slot updates the mapping at that key.
proof fn lemma_assoc_update(s: Seq<(StringPointer, Type)>, i: int, key: StringPointer, value: Type)
    requires
        spec_assoc_unique(s),
        0 <= i < s.len(),
        s[i].0.0 == key.0,
    ensures
        spec_assoc_map(s.update(i, (key, value))) == spec_assoc_map(s).insert(key.0 as int, value),
        spec_assoc_unique(s.update(i, (key, value))),
{
    let s2 = s.update(i, (key, value));
    assert forall|k: int| spec_assoc_has(s2, k) <==> spec_assoc_has(s, k) by {
        if spec_assoc_has(s2, k) {
            let w = choose|w: int| 0 <= w < s2.len() && s2[w].0.0 == k;
            assert(s[w].0.0 == k || s[i].0.0 == k);
        }
        if spec_assoc_has(s, k) {
            let w = choose|w: int| 0 <= w < s.len() && s[w].0.0 == k;
            assert(s2[w].0.0 == k || s2[i].0.0 == k);
        }
    }
    assert forall|k: int| #[trigger]
        spec_assoc_has(s2, k) implies spec_assoc_map(s2)[k] == spec_assoc_map(s).insert(
        key.0 as int,
        value,
    )[k] by {
        let w = choose|w: int| 0 <= w < s2.len() && s2[w].0.0 == k;
        if k == key.0 as int {
            assert(w == i);
        } else {
            assert(w != i);
            let w2 = choose|w2: int| 0 <= w2 < s.len() && s[w2].0.0 == k;
            assert(w2 == w);
        }
    }
    assert(spec_assoc_map(s2) =~= spec_assoc_map(s).insert(key.0 as int, value));
}

/// Appending an entry with a fresh key inserts it into the mapping.
proof fn lemma_assoc_push(s: Seq<(StringPointer, Type)>, key: StringPointer, value: Type)
    requires
        spec_assoc_unique(s),
        !spec_assoc_has(s, key.0 as int),
    ensures
        spec_assoc_map(s.push((key, value))) == spec_assoc_map(s).insert(key.0 as int, value),
        spec_assoc_unique(s.push((key, value))),
{
    let s2 = s.push((key, value));
    assert forall|k: int| spec_assoc_has(s2, k) <==> (spec_assoc_has(s, k) || k
        == key.0 as int) by {
        if spec_assoc_has(s2, k) {
            let w = choose|w: int| 0 <= w < s2.len() && s2[w].0.0 == k;
            if w < s.len() {
                assert(s[w].0.0 == k);
            }
        }
        if spec_assoc_has(s, k) {
            let w = choose|w: int| 0 <= w < s.len() && s[w].0.0 == k;
            assert(s2[w].0.0 == k);
        }
        if k == key.0 as int {
            assert(s2[s.len() as int].0.0 == k);
        }
    }
    assert forall|k: int| #[trigger]
        spec_assoc_has(s2, k) implies spec_assoc_map(s2)[k] == spec_assoc_map(s).insert(
        key.0 as int,
        value,
    )[k] by {
        let w = choose|w: int| 0 <= w < s2.len() && s2[w].0.0 == k;
        if k == key.0 as int {
            assert(w == s.len() as int);
        } else {
            assert(w < s.len());
            let w2 = choose|w2: int| 0 <= w2 < s.len() && s[w2].0.0 == k;
            assert(w2 == w);
        }
    }
    assert(spec_assoc_map(s2) =~= spec_assoc_map(s).insert(key.0 as int, value));
}

/// Removing a key's entry removes that key from the mapping.
proof fn lemma_assoc_remove(s: Seq<(StringPointer, Type)>, i: int)
    requires
        spec_assoc_unique(s),
        0 <= i < s.len(),
    ensures
        spec_assoc_map(s.remove(i)) == spec_assoc_map(s).remove(s[i].0.0 as int),
        spec_assoc_unique(s.remove(i)),
{
    let key = s[i].0.0 as int;
    let s2 = s.remove(i);
    assert forall|k: int| spec_assoc_has(s2, k) <==> (spec_assoc_has(s, k) && k != key) by {
        if spec_assoc_has(s2, k) {
            let w = choose|w: int| 0 <= w < s2.len() && s2[w].0.0 == k;
            if w < i {
                assert(s[w].0.0 == k);
                assert(w != i);
            } else {
                assert(s[w + 1].0.0 == k);
                assert(w + 1 != i);
            }
        }
        if spec_assoc_has(s, k) && k != key {
            let w = choose|w: int| 0 <= w < s.len() && s[w].0.0 == k;
            if w < i {
                assert(s2[w].0.0 == k);
            } else {
                assert(w > i);
                assert(s2[w - 1].0.0 == k);
            }
        }
    }
    assert forall|k: int| #[trigger]
        spec_assoc_has(s2, k) implies spec_assoc_map(s2)[k] == spec_assoc_map(s)[k] by {
        let w = choose|w: int| 0 <= w < s2.len() && s2[w].0.0 == k;
        let w2 = choose|w2: int| 0 <= w2 < s.len() && s[w2].0.0 == k;
        if w < i {
            assert(s[w].0.0 == k);
            assert(w2 == w);
        } else {
            assert(s[w + 1].0.0 == k);
            assert(w2 == w + 1);
        }
    }
    assert(spec_assoc_map(s2) =~= spec_assoc_map(s).remove(key));
}

} // verus!
