//! The objects of the heap, and the interning of strings.

use vstd::prelude::*;
use vstd::string::StringSliceAdditionalSpecFns;
use crate::chunk::{Chunk, ChunkView};
use crate::native_fn::NativeFn;
use crate::table::{Key, Table};
use crate::value::Value;

verus! {

/// The hash of no bytes.
pub const HASH_BASIS: u32 = 2166136261;

/// The factor by which the hash is multiplied after each byte.
pub const HASH_PRIME: u64 = 16777619;

/// One step of the hash: mix the byte in, then multiply, keeping 32 bits.
pub open spec fn hash_step(hash: u32, byte: u8) -> u32 {
    ((((hash ^ (byte as u32)) as int) * 16777619) % 0x1_0000_0000) as u32
}

/// The 32-bit FNV-1a hash of a sequence of bytes.
pub open spec fn fnv1a(bytes: Seq<u8>) -> u32
    decreases bytes.len(),
{
    if bytes.len() == 0 {
        HASH_BASIS
    } else {
        hash_step(fnv1a(bytes.drop_last()), bytes.last())
    }
}

/// The 32-bit FNV-1a hash of the bytes.
pub fn hash_bytes(bytes: &[u8]) -> (hash: u32)
    ensures
        hash == fnv1a(bytes@),
{
    let mut hash: u32 = HASH_BASIS;
    let mut i: usize = 0;
    while i < bytes.len()
        invariant
            i <= bytes@.len(),
            hash == fnv1a(bytes@.take(i as int)),
        decreases bytes@.len() - i,
    {
        proof {
            assert(bytes@.take(i as int + 1).drop_last() =~= bytes@.take(i as int));
        }
        let mixed: u64 = (hash ^ (bytes[i] as u32)) as u64;
        hash = ((mixed * HASH_PRIME) % 0x1_0000_0000) as u32;
        i = i + 1;
    }
    proof {
        assert(bytes@.take(i as int) =~= bytes@);
    }
    hash
}

/// Whether two runs of bytes are the same.
pub fn bytes_equal(a: &[u8], b: &[u8]) -> (r: bool)
    ensures
        r == (a@ == b@),
{
    if a.len() != b.len() {
        return false;
    }
    let mut i: usize = 0;
    while i < a.len()
        invariant
            a@.len() == b@.len(),
            i <= a@.len(),
            forall|j: int| 0 <= j < i ==> a@[j] == b@[j],
        decreases a@.len() - i,
    {
        if a[i] != b[i] {
            return false;
        }
        i = i + 1;
    }
    assert(a@ =~= b@);
    true
}

/// A copy of the bytes from `from` up to `to`.
pub fn copy_bytes(source: &[u8], from: usize, to: usize) -> (copy: Vec<u8>)
    requires
        from <= to <= source@.len(),
    ensures
        copy@ == source@.subrange(from as int, to as int),
{
    let mut copy: Vec<u8> = Vec::new();
    let mut i: usize = from;
    while i < to
        invariant
            from <= i <= to <= source@.len(),
            copy@ == source@.subrange(from as int, i as int),
        decreases to - i,
    {
        copy.push(source[i]);
        proof {
            assert(source@.subrange(from as int, i as int + 1) =~= source@.subrange(from as int, i as int).push(
                source@[i as int],
            ));
        }
        i = i + 1;
    }
    copy
}

/// A string of the heap: its bytes and their hash.
#[derive(Debug)]
pub struct ObjString {
    pub bytes: Vec<u8>,
    pub hash: u32,
}

/// A compiled function: how many arguments it takes, how many variables it
/// captures, its code, and the heap position of its name (none for the script).
#[derive(Debug)]
pub struct Function {
    pub arity: usize,
    pub upvalue_count: usize,
    pub chunk: Chunk,
    pub name: Option<usize>,
}

/// A function together with the variables it captured, each given by the heap
/// position of an upvalue.
#[derive(Debug)]
pub struct Closure {
    pub function: usize,
    pub upvalues: Vec<usize>,
}

/// A captured variable: open while the variable still lies on the stack, at
/// the given slot; closed once it has been moved off the stack.
#[derive(Clone, Copy, Debug, PartialEq, Eq, Structural)]
pub enum Upvalue {
    Open(usize),
    Closed(Value),
}

/// An object of the heap.
#[derive(Debug)]
pub enum Obj {
    String(ObjString),
    Function(Function),
    Native(NativeFn),
    Closure(Closure),
    Upvalue(Upvalue),
}

/// A function as a plain value.
pub struct FunctionView {
    pub arity: usize,
    pub upvalue_count: usize,
    pub chunk: ChunkView,
    pub name: Option<usize>,
}

impl View for Function {
    type V = FunctionView;

    open spec fn view(&self) -> FunctionView {
        FunctionView { arity: self.arity, upvalue_count: self.upvalue_count, chunk: self.chunk@, name: self.name }
    }
}

/// An object as a plain value.
pub enum ObjView {
    String(Seq<u8>, u32),
    Function(FunctionView),
    Native(NativeFn),
    Closure(usize, Seq<usize>),
    Upvalue(Upvalue),
}

impl View for Obj {
    type V = ObjView;

    open spec fn view(&self) -> ObjView {
        match self {
            Obj::String(s) => ObjView::String(s.bytes@, s.hash),
            Obj::Function(f) => ObjView::Function(f@),
            Obj::Native(n) => ObjView::Native(*n),
            Obj::Closure(c) => ObjView::Closure(c.function, c.upvalues@),
            Obj::Upvalue(u) => ObjView::Upvalue(*u),
        }
    }
}

/// The objects of a heap as plain values.
#[verifier::opaque]
pub open spec fn plain(heap: Seq<Obj>) -> Seq<ObjView> {
    Seq::new(heap.len(), |i: int| heap[i]@)
}

/// The heap: every object ever made, in the order of making. An object is
/// referred to by its position, which never changes.
#[derive(Debug)]
pub struct ObjList {
    pub objects: Vec<Obj>,
}

impl View for ObjList {
    type V = Seq<Obj>;

    open spec fn view(&self) -> Seq<Obj> {
        self.objects@
    }
}

/// The bytes of the string at position `i`, if a string lies there.
pub open spec fn text_at(heap: Seq<Obj>, i: int) -> Option<Seq<u8>> {
    if 0 <= i < heap.len() && heap[i] is String {
        Some(heap[i]->String_0.bytes@)
    } else {
        None
    }
}

/// The key that refers to the string at position `i`.
pub open spec fn key_at(heap: Seq<Obj>, i: int) -> Key {
    Key { index: i as usize, hash: heap[i]->String_0.hash }
}

/// Whether `after` is `before` with more objects made, and nothing changed
/// but upvalues that were closed or written through.
pub open spec fn extends(before: Seq<Obj>, after: Seq<Obj>) -> bool {
    &&& before.len() <= after.len()
    &&& forall|i: int|
        0 <= i < before.len() ==> if (#[trigger] before[i]) is Upvalue {
            after[i] is Upvalue
        } else {
            after[i] == before[i]
        }
}

/// A closure refers to a function, has as many upvalues as the function
/// captures, and each of them is an upvalue of the heap.
pub open spec fn closure_ok(heap: Seq<Obj>, c: Closure) -> bool {
    &&& c.function < heap.len()
    &&& heap[c.function as int] is Function
    &&& c.upvalues@.len() == heap[c.function as int]->Function_0.upvalue_count
    &&& forall|j: int|
        0 <= j < c.upvalues@.len() ==> (#[trigger] c.upvalues@[j]) < heap.len() && heap[c.upvalues@[j] as int]
            is Upvalue
}

/// Every closure of the heap is as `closure_ok` says.
pub open spec fn heap_ok(heap: Seq<Obj>) -> bool {
    forall|i: int| 0 <= i < heap.len() && (#[trigger] heap[i]) is Closure ==> closure_ok(heap, heap[i]->Closure_0)
}

/// What holds of an interner and the heap it serves: every key refers to a
/// string of the heap and carries that string's hash, which is the hash of its
/// bytes; and no two keys refer to strings with the same bytes.
pub open spec fn interned(strings: Map<Key, Value>, heap: Seq<Obj>) -> bool {
    &&& forall|k: Key| #[trigger]
        strings.contains_key(k) ==> {
            &&& text_at(heap, k.index as int) is Some
            &&& k == key_at(heap, k.index as int)
            &&& k.hash == fnv1a(heap[k.index as int]->String_0.bytes@)
        }
    &&& forall|j: Key, k: Key| #[trigger]
        strings.contains_key(j) && #[trigger] strings.contains_key(k) && text_at(heap, j.index as int) == text_at(
            heap,
            k.index as int,
        ) ==> j == k
}

/// The closures of a heap stay well formed when the heap is extended by
/// objects that are no closures.
pub proof fn lemma_heap_ok_extends(before: Seq<Obj>, after: Seq<Obj>)
    requires
        heap_ok(before),
        extends(before, after),
        forall|i: int| before.len() <= i < after.len() ==> !((#[trigger] after[i]) is Closure),
    ensures
        heap_ok(after),
{
    assert forall|i: int| 0 <= i < after.len() && (#[trigger] after[i]) is Closure implies closure_ok(
        after,
        after[i]->Closure_0,
    ) by {
        assert(i < before.len());
        assert(!(before[i] is Upvalue));
        assert(after[i] == before[i]);
        let c = before[i]->Closure_0;
        assert(closure_ok(before, c));
        assert(after[c.function as int] == before[c.function as int]);
        assert forall|j: int| 0 <= j < c.upvalues@.len() implies (#[trigger] c.upvalues@[j]) < after.len()
            && after[c.upvalues@[j] as int] is Upvalue by {
            assert(before[c.upvalues@[j] as int] is Upvalue);
        }
    }
}

/// An interner that serves a heap serves every heap that extends it.
pub proof fn lemma_interned_extends(strings: Map<Key, Value>, before: Seq<Obj>, after: Seq<Obj>)
    requires
        interned(strings, before),
        extends(before, after),
    ensures
        interned(strings, after),
{
    assert forall|k: Key| #[trigger] strings.contains_key(k) implies {
        &&& text_at(after, k.index as int) is Some
        &&& k == key_at(after, k.index as int)
        &&& k.hash == fnv1a(after[k.index as int]->String_0.bytes@)
    } by {
        assert(text_at(before, k.index as int) is Some);
        assert(!(before[k.index as int] is Upvalue));
        assert(after[k.index as int] == before[k.index as int]);
    }
    assert forall|j: Key, k: Key| #[trigger]
        strings.contains_key(j) && #[trigger] strings.contains_key(k) && text_at(after, j.index as int) == text_at(
            after,
            k.index as int,
        ) implies j == k by {
        assert(text_at(before, j.index as int) is Some);
        assert(text_at(before, k.index as int) is Some);
        assert(after[j.index as int] == before[j.index as int]);
        assert(after[k.index as int] == before[k.index as int]);
    }
}

/// Whether the interner knows a string with these bytes.
pub open spec fn known(strings: Map<Key, Value>, heap: Seq<Obj>, bytes: Seq<u8>) -> bool {
    exists|k: Key| #[trigger] strings.contains_key(k) && text_at(heap, k.index as int) == Some(bytes)
}

/// The key of the interned string with these bytes.
pub open spec fn key_of(strings: Map<Key, Value>, heap: Seq<Obj>, bytes: Seq<u8>) -> Key {
    choose|k: Key| #[trigger] strings.contains_key(k) && text_at(heap, k.index as int) == Some(bytes)
}

/// The number of slots of an interner after a string was interned: as many
/// as before if it knew the string, and else what storing one more entry
/// makes of them.
pub open spec fn slots_after(strings: Table, knew: bool) -> nat {
    if knew || !crate::table::grows(strings.size(), strings.graves(), strings.capacity()) {
        strings.capacity()
    } else {
        crate::table::doubled(strings.capacity())
    }
}

/// What interning `bytes` does: the key refers to a string with these bytes;
/// if the interner knew such a string, it is that one and nothing has
/// changed; if not, the string is new on the heap and new in the interner.
pub open spec fn interning(
    strings: Map<Key, Value>,
    heap: Seq<Obj>,
    bytes: Seq<u8>,
    key: Key,
    strings_after: Map<Key, Value>,
    heap_after: Seq<Obj>,
) -> bool {
    &&& strings_after.contains_key(key)
    &&& text_at(heap_after, key.index as int) == Some(bytes)
    &&& key == key_at(heap_after, key.index as int)
    &&& key.hash == fnv1a(bytes)
    &&& if known(strings, heap, bytes) {
        &&& key == key_of(strings, heap, bytes)
        &&& heap_after == heap
        &&& strings_after == strings
    } else {
        &&& key.index == heap.len()
        &&& heap_after.len() == heap.len() + 1
        &&& heap_after.take(heap.len() as int) == heap
        &&& heap_after.last() is String
        &&& strings_after == strings.insert(key, Value::Nil)
    }
}

/// Interning keeps the interner sound, and makes no key for bytes it knows.
pub proof fn interning_keeps(
    strings: Map<Key, Value>,
    heap: Seq<Obj>,
    bytes: Seq<u8>,
    key: Key,
    strings_after: Map<Key, Value>,
    heap_after: Seq<Obj>,
)
    requires
        interned(strings, heap),
        interning(strings, heap, bytes, key, strings_after, heap_after),
    ensures
        interned(strings_after, heap_after),
        known(strings_after, heap_after, bytes),
        key_of(strings_after, heap_after, bytes) == key,
        extends(heap, heap_after),
        forall|other: Seq<u8>| known(strings, heap, other) ==> known(strings_after, heap_after, other) && key_of(
            strings_after,
            heap_after,
            other,
        ) == key_of(strings, heap, other),
{
    if !known(strings, heap, bytes) {
        assert forall|i: int| 0 <= i < heap.len() implies heap_after[i] == #[trigger] heap[i] by {
            assert(heap_after.take(heap.len() as int)[i] == heap_after[i]);
        }
        assert(!strings.contains_key(key)) by {
            if strings.contains_key(key) {
                assert(text_at(heap, key.index as int) is Some);
            }
        }
        assert forall|k: Key| #[trigger] strings_after.contains_key(k) implies {
            &&& text_at(heap_after, k.index as int) is Some
            &&& k == key_at(heap_after, k.index as int)
            &&& k.hash == fnv1a(heap_after[k.index as int]->String_0.bytes@)
        } by {
            if k != key {
                assert(strings.contains_key(k));
                assert(heap_after[k.index as int] == heap[k.index as int]);
            }
        }
        assert forall|j: Key, k: Key| #[trigger]
            strings_after.contains_key(j) && #[trigger] strings_after.contains_key(k) && text_at(
                heap_after,
                j.index as int,
            ) == text_at(heap_after, k.index as int) implies j == k by {
            if j != key {
                assert(strings.contains_key(j));
                assert(heap_after[j.index as int] == heap[j.index as int]);
            }
            if k != key {
                assert(strings.contains_key(k));
                assert(heap_after[k.index as int] == heap[k.index as int]);
            }
        }
    }
    assert(strings_after.contains_key(key));
    let chosen = key_of(strings_after, heap_after, bytes);
    assert(strings_after.contains_key(chosen));
    assert forall|other: Seq<u8>| known(strings, heap, other) implies known(strings_after, heap_after, other)
        && key_of(strings_after, heap_after, other) == key_of(strings, heap, other) by {
        let was = key_of(strings, heap, other);
        assert(strings.contains_key(was));
        assert(strings_after.contains_key(was));
        assert(text_at(heap, was.index as int) is Some);
        assert(heap_after[was.index as int] == heap[was.index as int]);
        let now = key_of(strings_after, heap_after, other);
        assert(strings_after.contains_key(now));
    }
}

/// Two strings interned one after the other are the same object exactly when
/// their bytes are the same.
pub proof fn interning_is_canonical(
    strings: Map<Key, Value>,
    heap: Seq<Obj>,
    first: Seq<u8>,
    first_key: Key,
    strings_between: Map<Key, Value>,
    heap_between: Seq<Obj>,
    second: Seq<u8>,
    second_key: Key,
    strings_after: Map<Key, Value>,
    heap_after: Seq<Obj>,
)
    requires
        interned(strings, heap),
        interning(strings, heap, first, first_key, strings_between, heap_between),
        interning(strings_between, heap_between, second, second_key, strings_after, heap_after),
    ensures
        (first == second) <==> (first_key == second_key),
        (first == second) <==> (first_key.index == second_key.index),
        first == second ==> heap_after == heap_between && strings_after == strings_between,
{
    interning_keeps(strings, heap, first, first_key, strings_between, heap_between);
    interning_keeps(strings_between, heap_between, second, second_key, strings_after, heap_after);
    assert(text_at(heap_between, first_key.index as int) is Some);
    assert(heap_after[first_key.index as int] == heap_between[first_key.index as int]);
    assert(strings_after.contains_key(first_key));
}

/// The interner holds one key for each byte sequence interned: interning
/// bytes it knows leaves the number of its keys, interning new bytes adds
/// one.
pub proof fn interning_counts(
    strings: Map<Key, Value>,
    heap: Seq<Obj>,
    bytes: Seq<u8>,
    key: Key,
    strings_after: Map<Key, Value>,
    heap_after: Seq<Obj>,
)
    requires
        interned(strings, heap),
        strings.dom().finite(),
        interning(strings, heap, bytes, key, strings_after, heap_after),
    ensures
        strings_after.dom().finite(),
        strings_after.dom().len() == strings.dom().len() + (if known(strings, heap, bytes) { 0int } else { 1int }),
{
    if !known(strings, heap, bytes) {
        assert(!strings.contains_key(key)) by {
            if strings.contains_key(key) {
                assert(text_at(heap, key.index as int) is Some);
            }
        }
        assert(strings_after.dom() =~= strings.dom().insert(key));
    }
}

impl ObjList {
    /// A heap without objects.
    pub fn new() -> (heap: ObjList)
        ensures
            heap@ == Seq::<Obj>::empty(),
    {
        ObjList { objects: Vec::new() }
    }

    /// The number of objects.
    pub fn len(&self) -> (n: usize)
        ensures
            n == self@.len(),
    {
        self.objects.len()
    }

    /// Puts an object on the heap and returns its position.
    pub fn push(&mut self, obj: Obj) -> (index: usize)
        ensures
            index == old(self)@.len(),
            final(self)@ == old(self)@.push(obj),
    {
        self.objects.push(obj);
        self.objects.len() - 1
    }

    /// The bytes of the string at `index`, if a string lies there.
    pub fn text(&self, index: usize) -> (r: Option<&[u8]>)
        ensures
            match r {
                Some(bytes) => text_at(self@, index as int) == Some(bytes@),
                None => text_at(self@, index as int) is None,
            },
    {
        if index < self.objects.len() {
            match &self.objects[index] {
                Obj::String(s) => Some(s.bytes.as_slice()),
                _ => None,
            }
        } else {
            None
        }
    }

    /// The key that refers to the string at `index`, if a string lies there.
    pub fn key(&self, index: usize) -> (r: Option<Key>)
        ensures
            r == (if text_at(self@, index as int) is Some {
                Some(key_at(self@, index as int))
            } else {
                None
            }),
    {
        if index < self.objects.len() {
            match &self.objects[index] {
                Obj::String(s) => Some(Key { index, hash: s.hash }),
                _ => None,
            }
        } else {
            None
        }
    }

    /// Releases every object; the heap is empty afterwards.
    pub fn free(&mut self)
        ensures
            final(self)@ == Seq::<Obj>::empty(),
    {
        self.objects = Vec::new();
    }
}

impl Default for ObjList {
    /// A heap without objects.
    fn default() -> (heap: ObjList)
        ensures
            heap@ == Seq::<Obj>::empty(),
    {
        ObjList::new()
    }
}

impl Obj {
    /// Releases one object.
    pub fn free(obj: Obj) {
        let _ = obj;
    }
}

impl ObjString {
    /// The interned string with the given bytes: the one the interner already
    /// knows, or else a new string, put on the heap and entered into the
    /// interner.
    pub fn intern(strings: &mut Table, heap: &mut ObjList, bytes: &[u8]) -> (key: Key)
        requires
            old(strings).wf(),
            old(strings).roomy(),
            interned(old(strings)@, old(heap)@),
        ensures
            final(strings).wf(),
            interned(final(strings)@, final(heap)@),
            interning(old(strings)@, old(heap)@, bytes@, key, final(strings)@, final(heap)@),
            final(strings).size() == old(strings).size() + (if known(old(strings)@, old(heap)@, bytes@) {
                0int
            } else {
                1int
            }),
            final(strings).capacity() == slots_after(*old(strings), known(old(strings)@, old(heap)@, bytes@)),
            final(strings).graves() <= old(strings).graves(),
            known(old(strings)@, old(heap)@, bytes@) ==> final(strings).graves() == old(strings).graves(),
            final(strings).capacity() != old(strings).capacity() ==> final(strings).graves() == 0,
    {
        let hash: u32 = hash_bytes(bytes);
        let ghost before = heap@;
        match strings.find_string(heap, bytes, hash) {
            Some(key) => {
                proof {
                    assert(known(strings@, heap@, bytes@));
                    let other = key_of(strings@, heap@, bytes@);
                    assert(strings@.contains_key(other) && strings@.contains_key(key));
                }
                key
            },
            None => {
                proof {
                    if known(strings@, heap@, bytes@) {
                        let other = key_of(strings@, heap@, bytes@);
                        assert(strings@.contains_key(other));
                        assert(false);
                    }
                }
                let copy: Vec<u8> = copy_bytes(bytes, 0, bytes.len());
                proof {
                    assert(bytes@.subrange(0, bytes@.len() as int) =~= bytes@);
                }
                let index: usize = heap.push(Obj::String(ObjString { bytes: copy, hash }));
                let key = Key { index, hash };
                let ghost old_strings = strings@;
                strings.set(key, Value::Nil);
                proof {
                    assert(heap@.take(before.len() as int) =~= before);
                    assert(!old_strings.contains_key(key)) by {
                        if old_strings.contains_key(key) {
                            assert(text_at(before, key.index as int) is Some);
                        }
                    }
                    assert forall|k: Key| #[trigger] strings@.contains_key(k) implies {
                        &&& text_at(heap@, k.index as int) is Some
                        &&& k == key_at(heap@, k.index as int)
                        &&& k.hash == fnv1a(heap@[k.index as int]->String_0.bytes@)
                    } by {
                        if k != key {
                            assert(old_strings.contains_key(k));
                            assert(heap@[k.index as int] == before[k.index as int]);
                        }
                    }
                    assert forall|j: Key, k: Key| #[trigger]
                        strings@.contains_key(j) && #[trigger] strings@.contains_key(k) && text_at(
                            heap@,
                            j.index as int,
                        ) == text_at(heap@, k.index as int) implies j == k by {
                        if j != key {
                            assert(old_strings.contains_key(j));
                            assert(heap@[j.index as int] == before[j.index as int]);
                        }
                        if k != key {
                            assert(old_strings.contains_key(k));
                            assert(heap@[k.index as int] == before[k.index as int]);
                        }
                    }
                }
                key
            },
        }
    }

    /// The interned string with the text's bytes.
    pub fn copy_string(strings: &mut Table, heap: &mut ObjList, text: &str) -> (key: Key)
        requires
            old(strings).wf(),
            old(strings).roomy(),
            interned(old(strings)@, old(heap)@),
        ensures
            final(strings).wf(),
            interned(final(strings)@, final(heap)@),
            interning(old(strings)@, old(heap)@, text.spec_bytes(), key, final(strings)@, final(heap)@),
            final(strings).size() == old(strings).size() + (if known(
                old(strings)@,
                old(heap)@,
                text.spec_bytes(),
            ) {
                0int
            } else {
                1int
            }),
            final(strings).capacity() == slots_after(*old(strings), known(old(strings)@, old(heap)@, text.spec_bytes())),
            final(strings).graves() <= old(strings).graves(),
            known(old(strings)@, old(heap)@, text.spec_bytes()) ==> final(strings).graves() == old(strings).graves(),
            final(strings).capacity() != old(strings).capacity() ==> final(strings).graves() == 0,
    {
        ObjString::intern(strings, heap, text.as_bytes())
    }
}

} // verus!
