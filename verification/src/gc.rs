//! The object heap and string interner.
//!
//! Heap objects live in an arena that only grows; a handle ([`ObjRef`]) is a
//! stable, copyable arena index whose lifetime equals the heap's. The heap
//! deduplicates strings by content, so identity-equality of handles is
//! equivalent to content-equality of the strings they name.

use crate::table::Table;
use vstd::prelude::*;

verus! {

/// A stable, copyable, non-owning handle to an object in a [`GC`] arena.
#[derive(Copy, Clone, Debug, PartialEq, Eq, Structural)]
pub struct ObjRef {
    pub index: usize,
}

/// The FNV-1a offset basis.
pub const FNV_OFFSET_BASIS: u32 = 2166136261;

/// The FNV-1a prime.
pub const FNV_PRIME: u32 = 16777619;

/// One FNV-1a round: xor in the next byte, then multiply by the FNV prime
/// modulo 2^32.
pub open spec fn spec_fnv1a_round(h: u32, b: u8) -> u32 {
    (((h ^ (b as u32)) * FNV_PRIME) % 0x1_0000_0000) as u32
}

pub open spec fn spec_fnv1a_from(h: u32, bytes: Seq<u8>, i: int) -> u32
    decreases bytes.len() - i,
{
    if i < 0 || i >= bytes.len() {
        h
    } else {
        spec_fnv1a_from(spec_fnv1a_round(h, bytes[i]), bytes, i + 1)
    }
}

/// The FNV-1a hash of a string, folded over its UTF-8 bytes.
pub open spec fn spec_hash_string(s: Seq<char>) -> u32 {
    spec_fnv1a_from(FNV_OFFSET_BASIS, vstd::utf8::encode_utf8(s), 0)
}

/// FNV-1a over the UTF-8 bytes of `s`.
pub fn hash_string(s: &String) -> (h: u32)
    ensures
        h == spec_hash_string(s@),
{
    let bytes: Vec<u8> = s.as_str().as_bytes_vec();
    let n: usize = bytes.len();
    let mut h: u32 = FNV_OFFSET_BASIS;
    let mut i: usize = 0;
    while i < n
        invariant
            bytes@ == vstd::utf8::encode_utf8(s@),
            n == bytes@.len(),
            0 <= i <= n,
            spec_fnv1a_from(h, bytes@, i as int) == spec_hash_string(s@),
        decreases n - i,
    {
        let b: u8 = bytes[i];
        h = (h ^ (b as u32)).wrapping_mul(FNV_PRIME);
        i = i + 1;
    }
    h
}

/// An immutable heap-allocated string together with its cached FNV-1a hash,
/// computed once at allocation.
#[derive(Debug)]
pub struct ObjString {
    value: String,
    hash: u32,
}

impl View for ObjString {
    type V = Seq<char>;

    closed spec fn view(&self) -> Seq<char> {
        self.value@
    }
}

impl ObjString {
    /// The cached hash is always the FNV-1a hash of the content.
    pub closed spec fn wf(&self) -> bool {
        self.hash == spec_hash_string(self.value@)
    }

    pub fn new(value: String) -> (r: ObjString)
        ensures
            r.wf(),
            r@ == value@,
    {
        let hash = hash_string(&value);
        ObjString { value, hash }
    }

    pub fn get_value(&self) -> (r: &String)
        ensures
            r@ == self@,
    {
        &self.value
    }

    pub fn get_hash(&self) -> (r: u32)
        ensures
            self.wf() ==> r == spec_hash_string(self@),
    {
        self.hash
    }
}

impl Clone for ObjString {
    fn clone(&self) -> (r: ObjString)
        ensures
            r@ == self@,
            self.wf() ==> r.wf(),
    {
        ObjString { value: self.value.clone(), hash: self.hash }
    }
}

/// A heap-allocated object. Strings are the only kind.
#[derive(Debug)]
pub enum Obj {
    String(ObjString),
}

impl View for Obj {
    type V = Seq<char>;

    open spec fn view(&self) -> Seq<char> {
        match self {
            Obj::String(s) => s@,
        }
    }
}

impl Obj {
    pub open spec fn wf(&self) -> bool {
        match self {
            Obj::String(s) => s.wf(),
        }
    }

    pub fn unwrap_string(&self) -> (r: &ObjString)
        ensures
            r@ == self@,
            self.wf() ==> r.wf(),
    {
        match self {
            Obj::String(s) => s,
        }
    }
}

/// The object heap: an append-only arena of objects plus the string
/// interner, a content-keyed side table whose value for each content is the
/// handle of the one object holding it.
pub struct GC {
    objs: Vec<Obj>,
    strings: Table<ObjRef>,
}

impl GC {
    /// Every object is well formed and registered in the interner under its
    /// content, the interner points back into the arena, and the interner
    /// holds exactly one entry per object.
    pub closed spec fn wf(&self) -> bool {
        &&& self.strings.wf()
        &&& self.strings.spec_tombstone_free()
        &&& self.strings.spec_len() == self.objs@.len()
        &&& forall|i: int| 0 <= i < self.objs@.len() ==> (#[trigger] self.objs@[i]).wf()
        &&& forall|i: int|
            0 <= i < self.objs@.len() ==> self.strings@.contains_pair(
                (#[trigger] self.objs@[i])@,
                ObjRef { index: i as usize },
            )
        &&& forall|k: Seq<char>|
            #[trigger] self.strings@.dom().contains(k) ==> self.strings@[k].index
                < self.objs@.len() && self.objs@[self.strings@[k].index as int]@ == k
    }

    /// The number of live heap objects.
    pub closed spec fn spec_len(&self) -> nat {
        self.objs@.len()
    }

    /// The content of the object a handle names.
    pub closed spec fn spec_content(&self, r: ObjRef) -> Seq<char> {
        self.objs@[r.index as int]@
    }

    /// The contents of all live objects, in allocation order.
    pub open spec fn spec_contents(&self) -> Seq<Seq<char>> {
        Seq::new(self.spec_len(), |i: int| self.spec_content(ObjRef { index: i as usize }))
    }

    /// A handle is valid when it names a live object.
    pub open spec fn spec_valid(&self, r: ObjRef) -> bool {
        r.index < self.spec_len()
    }

    /// Some live object holds exactly this content.
    pub open spec fn spec_has_content(&self, s: Seq<char>) -> bool {
        exists|i: int|
            0 <= i < self.spec_len() && (#[trigger] self.spec_content(ObjRef { index: i as usize }))
                == s
    }

    /// The arena is a vector, so the number of objects fits in a `usize`.
    pub proof fn lemma_len_bound(&self)
        ensures
            self.spec_len() <= usize::MAX,
    {
        vstd::std_specs::vec::axiom_spec_len(&self.objs);
    }

    pub fn new() -> (r: GC)
        ensures
            r.wf(),
            r.spec_len() == 0,
    {
        GC { objs: Vec::new(), strings: Table::new() }
    }

    /// Dereferences a handle.
    pub fn get_obj(&self, r: ObjRef) -> (o: &Obj)
        requires
            self.wf(),
            self.spec_valid(r),
        ensures
            o@ == self.spec_content(r),
            o.wf(),
    {
        &self.objs[r.index]
    }

    /// The number of live heap objects.
    pub fn obj_count(&self) -> (n: usize)
        ensures
            n == self.spec_len(),
    {
        self.objs.len()
    }

    /// Interns a string: if some live object already holds equal content,
    /// returns its handle and leaves the heap untouched; otherwise allocates
    /// a new string object, registers it, and returns the new handle.
    pub fn alloc_string(&mut self, value: String) -> (r: ObjRef)
        requires
            old(self).wf(),
            old(self).spec_len() < usize::MAX / 8,
        ensures
            final(self).wf(),
            final(self).spec_valid(r),
            final(self).spec_content(r) == value@,
            old(self).spec_has_content(value@) ==> *final(self) == *old(self),
            !old(self).spec_has_content(value@) ==> {
                &&& final(self).spec_len() == old(self).spec_len() + 1
                &&& r.index == old(self).spec_len()
            },
            final(self).spec_len() >= old(self).spec_len(),
            forall|q: ObjRef|
                old(self).spec_valid(q) ==> final(self).spec_valid(q) && final(self).spec_content(
                    q,
                ) == old(self).spec_content(q),
    {
        let obj_string = ObjString::new(value);
        let ghost v = obj_string@;
        let found = match self.strings.find(&obj_string) {
            Some(r) => Some(*r),
            None => None,
        };
        match found {
            Some(r) => {
                proof {
                    assert(self.strings@.dom().contains(v));
                    let i = self.strings@[v].index as int;
                    assert(self.objs@[i]@ == v);
                    vstd::std_specs::vec::axiom_spec_len(&self.objs);
                    assert(self.spec_content(ObjRef { index: i as usize }) == v);
                    assert(self.spec_has_content(v));
                }
                r
            },
            None => {
                proof {
                    vstd::std_specs::vec::axiom_spec_len(&self.objs);
                    if self.spec_has_content(v) {
                        let i = choose|i: int|
                            0 <= i < self.spec_len() && (#[trigger] self.spec_content(
                                ObjRef { index: i as usize },
                            )) == v;
                        assert(self.objs@[i]@ == v);
                        assert(self.strings@.contains_pair(
                            self.objs@[i]@,
                            ObjRef { index: i as usize },
                        ));
                        assert(false);
                    }
                }
                let idx = self.objs.len();
                let r = ObjRef { index: idx };
                let key_copy = obj_string.clone();
                self.objs.push(Obj::String(obj_string));
                self.strings.set(&key_copy, r);
                proof {
                    assert(self.objs@[idx as int]@ == v);
                    assert forall|i: int| 0 <= i < self.objs@.len() implies (
                    #[trigger] self.objs@[i]).wf() by {
                        if i < idx {
                            assert(self.objs@[i] == old(self).objs@[i]);
                        }
                    }
                    assert forall|i: int| 0 <= i < self.objs@.len() implies self.strings@
                        .contains_pair((#[trigger] self.objs@[i])@, ObjRef { index: i as usize })
                        by {
                        if i < idx {
                            assert(self.objs@[i] == old(self).objs@[i]);
                            assert(old(self).strings@.contains_pair(
                                self.objs@[i]@,
                                ObjRef { index: i as usize },
                            ));
                            assert(self.objs@[i]@ != v);
                        }
                    }
                    assert forall|k: Seq<char>|
                        #[trigger] self.strings@.dom().contains(k) implies self.strings@[k].index
                        < self.objs@.len() && self.objs@[self.strings@[k].index as int]@ == k by {
                        if k != v {
                            assert(old(self).strings@.dom().contains(k));
                            assert(self.objs@[old(self).strings@[k].index as int]
                                == old(self).objs@[old(self).strings@[k].index as int]);
                        }
                    }
                }
                r
            },
        }
    }
}

/// No two live objects hold equal content.
pub proof fn lemma_contents_distinct(gc: &GC)
    requires
        gc.wf(),
    ensures
        forall|i: int, j: int|
            0 <= i < gc.spec_len() && 0 <= j < gc.spec_len() && i != j ==> gc.spec_contents()[i]
                != gc.spec_contents()[j],
{
    assert forall|i: int, j: int|
        0 <= i < gc.spec_len() && 0 <= j < gc.spec_len() && i != j implies gc.spec_contents()[i]
        != gc.spec_contents()[j] by {
        vstd::std_specs::vec::axiom_spec_len(&gc.objs);
        let ri = ObjRef { index: i as usize };
        let rj = ObjRef { index: j as usize };
        assert(gc.spec_contents()[i] == gc.spec_content(ri));
        assert(gc.spec_contents()[j] == gc.spec_content(rj));
        if gc.spec_contents()[i] == gc.spec_contents()[j] {
            lemma_interning_unique(gc, ri, rj);
            assert(false);
        }
    }
}

/// Interning makes handle identity equivalent to content equality: any two
/// valid handles whose objects hold equal content are the same handle, so
/// for all contents `a == b`, `intern(a) == intern(b)`.
pub proof fn lemma_interning_unique(gc: &GC, a: ObjRef, b: ObjRef)
    requires
        gc.wf(),
        gc.spec_valid(a),
        gc.spec_valid(b),
        gc.spec_content(a) == gc.spec_content(b),
    ensures
        a == b,
{
    let ka = gc.spec_content(a);
    assert(gc.strings@.contains_pair(gc.objs@[a.index as int]@, ObjRef { index: a.index }));
    assert(gc.strings@.contains_pair(gc.objs@[b.index as int]@, ObjRef { index: b.index }));
    assert(gc.strings@[ka] == ObjRef { index: a.index });
    assert(gc.strings@[ka] == ObjRef { index: b.index });
}

} // verus!
