use std::collections::HashMap;

use rustc_hash::FxBuildHasher;
use slab::Slab;
use vstd::prelude::*;

use crate::object::{native_name, Native, Object};
use crate::text::{decimal, decimal_text};
use vstd::string::StringExecFns;
use crate::value::{lemma_object_roundtrip, object_bits, Value, OBJECT_INDEX_LIMIT};

verus! {

#[verifier::external_type_specification]
#[verifier::external_body]
#[verifier::reject_recursive_types(T)]
pub struct ExSlab<T>(Slab<T>);

#[verifier::external_type_specification]
#[verifier::external_body]
pub struct ExFxBuildHasher(FxBuildHasher);

/// The objects a slab holds, by key.
pub uninterp spec fn slab_objects(s: Slab<Object>) -> Map<usize, Object>;

/// The number of slots of a slab, occupied or vacant: every key is below it.
pub uninterp spec fn slab_slots(s: Slab<Object>) -> usize;

/// The heap index an intern table maps each string to, by its characters.
pub uninterp spec fn interned_strings(t: HashMap<String, usize, FxBuildHasher>) -> Map<
    Seq<char>,
    usize,
>;

/// `Slab::new`: a slab that holds nothing and has no slot.
#[verifier::external_body]
fn new_object_slab() -> (slab: Slab<Object>)
    ensures
        slab_objects(slab).dom() == Set::<usize>::empty(),
        slab_slots(slab) == 0,
{
    Slab::new()
}

/// `Slab::insert`: stores `obj` under a key that held nothing and returns
/// that key; the other entries stay. The key is that of a vacant slot, or
/// the number of slots, in which case a slot is added.
#[verifier::external_body]
fn insert_object(s: &mut Slab<Object>, obj: Object) -> (key: usize)
    ensures
        !slab_objects(*old(s)).dom().contains(key),
        slab_objects(*final(s)) == slab_objects(*old(s)).insert(key, obj),
        key <= slab_slots(*old(s)),
        key == slab_slots(*old(s)) ==> slab_slots(*final(s)) == slab_slots(*old(s)) + 1,
        key < slab_slots(*old(s)) ==> slab_slots(*final(s)) == slab_slots(*old(s)),
        forall|k: usize| #[trigger]
            slab_objects(*final(s)).dom().contains(k) ==> k < slab_slots(*final(s)),
{
    s.insert(obj)
}

/// `Slab::get`: the object stored under `key`, if any.
#[verifier::external_body]
fn get_object(s: &Slab<Object>, key: usize) -> (r: Option<&Object>)
    ensures
        r == (if slab_objects(*s).dom().contains(key) {
            Some(&slab_objects(*s)[key])
        } else {
            None
        }),
{
    s.get(key)
}

/// `HashMap::default` with the Fx hasher: an intern table that maps no
/// string.
#[verifier::external_body]
fn new_intern_table() -> (table: HashMap<String, usize, FxBuildHasher>)
    ensures
        interned_strings(table).dom() == Set::<Seq<char>>::empty(),
{
    HashMap::default()
}

/// `HashMap::get`: the index the table maps the characters of `s` to, if
/// any (strings are equal exactly when their characters are).
#[verifier::external_body]
fn intern_lookup(t: &HashMap<String, usize, FxBuildHasher>, s: &String) -> (r: Option<usize>)
    ensures
        r == (if interned_strings(*t).dom().contains(s@) {
            Some(interned_strings(*t)[s@])
        } else {
            None
        }),
{
    t.get(s).copied()
}

/// `HashMap::insert`: maps the characters of `s` to `index`; the other
/// entries stay.
#[verifier::external_body]
fn intern_insert(t: &mut HashMap<String, usize, FxBuildHasher>, s: String, index: usize)
    ensures
        interned_strings(*final(t)) == interned_strings(*old(t)).insert(s@, index),
{
    t.insert(s, index);
}

/// The objects of the virtual machine, and a table of the strings among them
/// so that each string is stored once.
pub struct Heap {
    objects: Slab<Object>,
    intern_table: HashMap<String, usize, FxBuildHasher>,
}

/// A string object whose characters are `s`.
pub open spec fn is_string_object(o: Object, s: Seq<char>) -> bool {
    o matches Object::String(t) && t@ == s
}

/// What storing the string `s` does: a string the heap already interned
/// gives back its reference and changes nothing; a new string is stored at
/// an index that held nothing, interned under that index, and referred to.
pub open spec fn str_pushed(before: Heap, s: Seq<char>, after: Heap, v: Value) -> bool {
    if before.strings().dom().contains(s) {
        &&& v.spec_bits() == object_bits(before.strings()[s] as u64)
        &&& after.objects() == before.objects()
        &&& after.strings() == before.strings()
        &&& after.slots() == before.slots()
    } else {
        let k = before.slots();
        &&& v.spec_bits() == object_bits(k as u64)
        &&& after.slots() == k + 1
        &&& after.objects() == before.objects().insert(k, after.objects()[k])
        &&& is_string_object(after.objects()[k], s)
        &&& after.strings() == before.strings().insert(s, k)
    }
}

/// What any step of compilation or execution does to the heap: it keeps its
/// invariant, and every stored object and interned string stays.
pub open spec fn heap_grows(before: Heap, after: Heap) -> bool {
    &&& after.wf()
    &&& before.objects().submap_of(after.objects())
    &&& before.strings().submap_of(after.strings())
    &&& before.slots() <= after.slots()
}

impl Heap {
    /// The objects, by heap index.
    pub closed spec fn objects(&self) -> Map<usize, Object> {
        slab_objects(self.objects)
    }

    /// The number of objects stored: they are at the indices below it.
    pub closed spec fn slots(&self) -> usize {
        slab_slots(self.objects)
    }

    /// The interned strings and the heap index of each.
    pub closed spec fn strings(&self) -> Map<Seq<char>, usize> {
        interned_strings(self.intern_table)
    }

    /// The objects fill the indices below `slots`; every interned string
    /// is stored, as a string object with its characters, at the index the
    /// table gives.
    pub open spec fn wf(&self) -> bool {
        &&& forall|k: usize| #[trigger] self.objects().dom().contains(k) <==> k < self.slots()
        &&& forall|s: Seq<char>|
            #![trigger self.strings()[s]]
            self.strings().dom().contains(s) ==> self.objects().dom().contains(self.strings()[s])
                && is_string_object(self.objects()[self.strings()[s]], s)
    }

    /// An empty heap.
    pub fn new() -> (h: Heap)
        ensures
            h.wf(),
            h.objects() == Map::<usize, Object>::empty(),
            h.strings() == Map::<Seq<char>, usize>::empty(),
            h.slots() == 0,
    {
        let h = Heap { objects: new_object_slab(), intern_table: new_intern_table() };
        assert(h.objects() =~= Map::<usize, Object>::empty());
        assert(h.strings() =~= Map::<Seq<char>, usize>::empty());
        h
    }

    /// Stores `obj` at the first free index and returns that index.
    fn insert(&mut self, obj: Object) -> (key: usize)
        requires
            old(self).wf(),
        ensures
            final(self).wf(),
            key == old(self).slots(),
            final(self).slots() == old(self).slots() + 1,
            final(self).objects() == old(self).objects().insert(key, obj),
            final(self).strings() == old(self).strings(),
    {
        let key = insert_object(&mut self.objects, obj);
        assert(!old(self).objects().dom().contains(key));
        assert(!(key < old(self).slots()));
        assert forall|k: usize| #[trigger] self.objects().dom().contains(k) <==> k < self.slots() by {
            if k < self.slots() && k != key {
                assert(old(self).objects().dom().contains(k));
            }
        }
        assert forall|s: Seq<char>| #![trigger self.strings()[s]] self.strings().dom().contains(s) implies
            self.objects().dom().contains(self.strings()[s]) && is_string_object(
                self.objects()[self.strings()[s]],
                s,
            ) by {
            assert(old(self).objects().dom().contains(old(self).strings()[s]));
        }
        key
    }

    /// Stores `obj` at the first free index and returns a reference to it.
    /// Strings go through `push_str`.
    pub fn push(&mut self, obj: Object) -> (v: Value)
        requires
            old(self).wf(),
        ensures
            final(self).wf(),
            v.spec_bits() == object_bits(old(self).slots() as u64),
            final(self).slots() == old(self).slots() + 1,
            final(self).objects() == old(self).objects().insert(old(self).slots(), obj),
            final(self).strings() == old(self).strings(),
            heap_grows(*old(self), *final(self)),
    {
        let ghost o = obj;
        let key = self.insert(obj);
        assert(self.objects() == old(self).objects().insert(key, o));
        assert(old(self).strings() =~= self.strings());
        Value::object(key)
    }

    /// A reference to the string object with the characters of `s`: the one
    /// already stored if `s` was interned, else a new one.
    pub fn push_str(&mut self, s: String) -> (v: Value)
        requires
            old(self).wf(),
        ensures
            final(self).wf(),
            str_pushed(*old(self), s@, *final(self), v),
            heap_grows(*old(self), *final(self)),
    {
        match intern_lookup(&self.intern_table, &s) {
            Some(index) => Value::object(index),
            None => {
                let key_string = s.clone();
                let ghost o = Object::String(s);
                let key = self.insert(Object::String(s));
                assert(self.objects() == old(self).objects().insert(key, o));
                intern_insert(&mut self.intern_table, key_string, key);
                assert forall|t: Seq<char>| #![trigger self.strings()[t]] self.strings().dom().contains(t) implies
                    self.objects().dom().contains(self.strings()[t]) && is_string_object(
                        self.objects()[self.strings()[t]],
                        t,
                    ) by {
                    if t != key_string@ {
                        assert(old(self).objects().dom().contains(old(self).strings()[t]));
                    }
                }
                assert(self.objects() == old(self).objects().insert(key, self.objects()[key]));
                Value::object(key)
            },
        }
    }

    /// The object a value refers to, if it is a reference to a stored
    /// object.
    pub fn get(&self, value: &Value) -> (r: Option<&Object>)
        ensures
            r == (if value.spec_is_object() && self.objects().dom().contains(
                value.spec_as_object(),
            ) {
                Some(&self.objects()[value.spec_as_object()])
            } else {
                None
            }),
    {
        if !value.is_object() {
            return None;
        }
        get_object(&self.objects, value.as_object())
    }

    /// How `print` shows an object; `Err(n)` for an upvalue that holds the
    /// number `n`, whose text is that of the number.
    pub fn format_value(&self, obj: &Object) -> (text: Result<String, Value>)
        ensures
            text matches Ok(t) ==> object_text(*obj) == Ok::<Seq<char>, Value>(t@),
            text matches Err(n) ==> object_text(*obj) == Err::<Seq<char>, Value>(n),
    {
        match obj {
            Object::String(s) => Ok(s.clone()),
            Object::Function(f) => Ok(angle_text("<fn ", f.name.as_str())),
            Object::Native(n) => Ok(angle_text("<fn ", n.name())),
            Object::Closure(c) => Ok(angle_text("<closure ", c.function.name.as_str())),
            Object::UpValue(v) => debug_text(v),
        }
    }
}

/// `prefix`, then `name`, then `>`.
fn angle_text(prefix: &str, name: &str) -> (s: String)
    ensures
        s@ == prefix@ + name@ + ">"@,
{
    let mut s = String::new();
    s.append(prefix);
    s.append(name);
    s.append(">");
    s
}

/// How a value shows when it is held in an upvalue: `nil`, `true`, `false`,
/// `<object:N>`, `<unknown>`; `Err(v)` for a number `v`.
pub open spec fn value_debug_text(v: Value) -> Result<Seq<char>, Value> {
    if v.spec_is_nil() {
        Ok("nil"@)
    } else if v.spec_is_boolean() {
        Ok(if v.spec_as_boolean() { "true"@ } else { "false"@ })
    } else if v.spec_is_number() {
        Err(v)
    } else if v.spec_is_object() {
        Ok("<object:"@ + decimal(v.spec_as_object() as nat) + ">"@)
    } else {
        Ok("<unknown>"@)
    }
}

/// How `print` shows an object: a string is its characters, a function
/// `<fn name>`, a closure `<closure name>`; `Err(n)` where the text is that
/// of the number `n`.
pub open spec fn object_text(o: Object) -> Result<Seq<char>, Value> {
    match o {
        Object::String(s) => Ok(s@),
        Object::Function(f) => Ok("<fn "@ + f.name@ + ">"@),
        Object::Native(n) => Ok("<fn "@ + native_name(n) + ">"@),
        Object::Closure(c) => Ok("<closure "@ + c.function.name@ + ">"@),
        Object::UpValue(v) => value_debug_text(v),
    }
}

/// The text of `value_debug_text`.
fn debug_text(v: &Value) -> (text: Result<String, Value>)
    ensures
        text matches Ok(t) ==> value_debug_text(*v) == Ok::<Seq<char>, Value>(t@),
        text matches Err(n) ==> value_debug_text(*v) == Err::<Seq<char>, Value>(n),
{
    if v.is_nil() {
        Ok(String::from_str("nil"))
    } else if v.is_boolean() {
        if v.as_boolean() {
            Ok(String::from_str("true"))
        } else {
            Ok(String::from_str("false"))
        }
    } else if v.is_number() {
        Err(*v)
    } else if v.is_object() {
        let mut s = String::from_str("<object:");
        let digits = decimal_text(v.as_object() as u64);
        s.append(digits.as_str());
        s.append(">");
        Ok(s)
    } else {
        Ok(String::from_str("<unknown>"))
    }
}

/// Interning: storing a string twice gives the same reference both times,
/// and the second time changes nothing.
pub proof fn lemma_push_str_twice(
    h0: Heap,
    h1: Heap,
    h2: Heap,
    s: Seq<char>,
    v1: Value,
    v2: Value,
)
    requires
        h0.wf(),
        str_pushed(h0, s, h1, v1),
        str_pushed(h1, s, h2, v2),
    ensures
        v2.spec_bits() == v1.spec_bits(),
        h2.objects() == h1.objects(),
        h2.strings() == h1.strings(),
{
}

/// A stored string reads back: the reference that storing `s` gives is an
/// object whose slot holds a string with the characters of `s`, as long as
/// the slot index fits the boxed form of a reference.
pub proof fn lemma_push_str_reads_back(h0: Heap, h1: Heap, s: Seq<char>, v: Value)
    requires
        h0.wf(),
        str_pushed(h0, s, h1, v),
        h1.strings()[s] < OBJECT_INDEX_LIMIT,
    ensures
        h1.strings().dom().contains(s),
        v.spec_is_object(),
        h1.objects().dom().contains(v.spec_as_object()),
        is_string_object(h1.objects()[v.spec_as_object()], s),
{
    let k = h1.strings()[s];
    lemma_object_roundtrip(k as u64);
}

/// Storing a string only adds to the heap.
pub proof fn lemma_str_pushed_grows(h0: Heap, h1: Heap, s: Seq<char>, v: Value)
    requires
        h0.wf(),
        h1.wf(),
        str_pushed(h0, s, h1, v),
    ensures
        heap_grows(h0, h1),
{
}

/// The heap only grows, step after step.
pub proof fn lemma_heap_grows_trans(h0: Heap, h1: Heap, h2: Heap)
    requires
        heap_grows(h0, h1),
        heap_grows(h1, h2),
    ensures
        heap_grows(h0, h2),
{
    assert forall|k: usize| #[trigger] h0.objects().dom().contains(k) implies h2.objects().dom().contains(k)
        && h2.objects()[k] == h0.objects()[k] by {
        assert(h1.objects().dom().contains(k));
    }
    assert forall|s: Seq<char>| #[trigger] h0.strings().dom().contains(s) implies h2.strings().dom().contains(s)
        && h2.strings()[s] == h0.strings()[s] by {
        assert(h1.strings().dom().contains(s));
        assert(h1.strings()[s] == h0.strings()[s]);
        assert(h2.strings().dom().contains(s));
        assert(h2.strings()[s] == h1.strings()[s]);
    }
}

/// After a string is stored, the heap interns it, and the reference given
/// is to its interned index.
pub proof fn lemma_str_pushed_names(h0: Heap, h1: Heap, s: Seq<char>, v: Value)
    requires
        str_pushed(h0, s, h1, v),
    ensures
        h1.strings().dom().contains(s),
        v.spec_bits() == object_bits(h1.strings()[s] as u64),
{
}

} // verus!
