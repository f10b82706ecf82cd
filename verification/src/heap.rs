//! The heap of string objects and the table that interns them.
//!
//! Every string lives in the heap once. A handle names its slot, so two handles are equal
//! exactly when they name strings of equal text.

use vstd::prelude::*;
use vstd::string::StringExecFns;
use crate::hashtable::HashTable;
use crate::value::{spec_hash_string, LoxObject, ObjRef, Value};

verus! {

/// The string objects, in the order in which they were made, together with the intern
/// table that finds them again by text.
#[derive(Debug)]
pub struct Heap {
    objects: Vec<LoxObject>,
    strings: HashTable,
}

/// The most strings a heap may hold: so many that the table that interns them, which has
/// fewer than three slots for each string, can still be doubled.
pub const MAX_STRINGS: usize = usize::MAX / 8;

/// The handle names a string among `texts`.
pub open spec fn texts_contain(texts: Seq<Seq<char>>, handle: ObjRef) -> bool {
    handle.index < texts.len() && handle.hash == spec_hash_string(texts[handle.index as int])
}

/// The texts of a heap after `text` has been interned: it is added unless it is there.
pub open spec fn spec_interned(texts: Seq<Seq<char>>, text: Seq<char>) -> Seq<Seq<char>> {
    if texts.contains(text) {
        texts
    } else {
        texts.push(text)
    }
}

/// The handle of the string with the text `text` among `texts`.
pub open spec fn spec_handle_of(texts: Seq<Seq<char>>, text: Seq<char>) -> ObjRef {
    ObjRef {
        index: (choose|i: int| 0 <= i < texts.len() && texts[i] == text) as usize,
        hash: spec_hash_string(text),
    }
}

/// A string among `texts` is a string among the texts after another one has been interned.
pub proof fn lemma_interned_keeps(texts: Seq<Seq<char>>, text: Seq<char>, handle: ObjRef)
    requires
        texts_contain(texts, handle),
    ensures
        texts_contain(spec_interned(texts, text), handle),
{
    assert(spec_interned(texts, text)[handle.index as int] == texts[handle.index as int]);
}

/// There are no more handles of strings than strings: a finite set of handles that all
/// name strings among `texts` has at most as many members as there are texts.
pub proof fn lemma_handles_count(handles: Set<ObjRef>, texts: Seq<Seq<char>>)
    requires
        handles.finite(),
        forall|k: ObjRef| #[trigger] handles.contains(k) ==> texts_contain(texts, k),
        texts.len() <= usize::MAX,
    ensures
        handles.len() <= texts.len(),
    decreases texts.len(),
{
    if texts.len() == 0 {
        assert(handles =~= Set::<ObjRef>::empty());
    } else {
        let n = (texts.len() - 1) as int;
        let last = ObjRef { index: n as usize, hash: spec_hash_string(texts[n]) };
        let rest = handles.remove(last);
        let shorter = texts.drop_last();
        assert forall|k: ObjRef| #[trigger] rest.contains(k) implies texts_contain(shorter, k) by {
            assert(handles.contains(k));
            assert(texts_contain(texts, k));
            if k.index == n {
                assert(k == last);
            }
            assert(shorter[k.index as int] == texts[k.index as int]);
        }
        lemma_handles_count(rest, shorter);
        if handles.contains(last) {
            assert(handles.len() == rest.len() + 1);
        } else {
            assert(rest =~= handles);
        }
    }
}

impl View for Heap {
    type V = Seq<Seq<char>>;

    /// The texts of the strings in the heap, by slot.
    closed spec fn view(&self) -> Seq<Seq<char>> {
        Seq::new(self.objects@.len(), |i: int| self.objects@[i].text())
    }
}

impl Heap {
    /// The handle names a string of this heap.
    pub open spec fn contains(&self, handle: ObjRef) -> bool {
        texts_contain(self@, handle)
    }

    /// The text of the string that a handle names.
    pub open spec fn text_of(&self, handle: ObjRef) -> Seq<char> {
        self@[handle.index as int]
    }

    /// The invariant of the heap: each string carries the hash of its text, no text occurs
    /// twice, and the intern table holds exactly the handles of the strings, each with the
    /// value `nil`.
    pub closed spec fn wf(&self) -> bool {
        &&& self.strings.wf()
        &&& forall|i: int| 0 <= i < self.objects@.len() ==> (#[trigger] self.objects@[i]).wf()
        &&& forall|k: ObjRef| #[trigger]
            self.strings@.dom().contains(k) ==> k.index < self.objects@.len() && k.hash
                == self.objects@[k.index as int].stored_hash() && self.strings@[k] is Nil
        &&& forall|i: int|
            0 <= i < self.objects@.len() ==> self.strings@.dom().contains(
                ObjRef { index: i as usize, hash: (#[trigger] self.objects@[i]).stored_hash() },
            )
        &&& forall|i: int, j: int|
            0 <= i < self.objects@.len() && 0 <= j < self.objects@.len() && (
            #[trigger] self.objects@[i]).text() == (#[trigger] self.objects@[j]).text() ==> i
                == j
        &&& self.objects@.len() <= MAX_STRINGS
        &&& self.strings.spec_tombstones() == 0
        &&& self.strings@.dom().len() == self.objects@.len()
        &&& self.strings.spec_capacity() <= 8 || 3 * self.strings.spec_capacity() < 8 * (
        self.strings.spec_count() + 1)
    }

    /// Whether the heap can take one more string: it holds fewer than [`MAX_STRINGS`].
    pub open spec fn spec_can_allocate(&self) -> bool {
        self@.len() < MAX_STRINGS
    }

    /// A well-formed heap holds no more than [`MAX_STRINGS`] strings.
    pub proof fn lemma_bounded(&self)
        requires
            self.wf(),
        ensures
            self@.len() <= MAX_STRINGS,
    {
    }

    /// In a well-formed heap no text occurs twice.
    pub proof fn lemma_texts_distinct(&self, i: int, j: int)
        requires
            self.wf(),
            0 <= i < self@.len(),
            0 <= j < self@.len(),
            self@[i] == self@[j],
        ensures
            i == j,
    {
        assert(self.objects@[i].text() == self.objects@[j].text());
    }

    /// A handle of a well-formed heap is the handle of its text: no other handle names a
    /// string with that text.
    pub proof fn lemma_handle_of(&self, handle: ObjRef)
        requires
            self.wf(),
            self.contains(handle),
        ensures
            handle == spec_handle_of(self@, self.text_of(handle)),
    {
        let text = self.text_of(handle);
        let i = choose|i: int| 0 <= i < self@.len() && self@[i] == text;
        assert(0 <= handle.index < self@.len() && self@[handle.index as int] == text);
        self.lemma_texts_distinct(i, handle.index as int);
    }

    /// Strings of equal text are one object: two handles of a well-formed heap that name
    /// strings of the same text are the same handle.
    pub proof fn law_equal_texts_share_handle(&self, a: ObjRef, b: ObjRef)
        requires
            self.wf(),
            self.contains(a),
            self.contains(b),
            self.text_of(a) == self.text_of(b),
        ensures
            a == b,
    {
        self.lemma_texts_distinct(a.index as int, b.index as int);
    }

    /// Interning a text twice yields the same handle: the second call finds the string
    /// that the first one made, and leaves the heap as it is.
    pub proof fn law_intern_twice(before: Seq<Seq<char>>, text: Seq<char>)
        ensures
            spec_interned(spec_interned(before, text), text) == spec_interned(before, text),
    {
        let once = spec_interned(before, text);
        if !before.contains(text) {
            assert(once[before.len() as int] == text);
        }
    }

    /// A heap without strings.
    pub fn new() -> (heap: Heap)
        ensures
            heap.wf(),
            heap@ == Seq::<Seq<char>>::empty(),
    {
        let heap = Heap { objects: Vec::new(), strings: HashTable::new() };
        assert(heap@ =~= Seq::<Seq<char>>::empty());
        assert(heap.strings@.dom() =~= Set::<ObjRef>::empty());
        heap
    }

    /// The number of strings in the heap.
    pub fn len(&self) -> (len: usize)
        ensures
            len == self@.len(),
    {
        self.objects.len()
    }

    /// Whether [`Heap::allocate_string`] may be called: the heap is not full.
    pub fn can_allocate(&self) -> (ok: bool)
        ensures
            ok == self.spec_can_allocate(),
    {
        self.objects.len() < MAX_STRINGS
    }

    /// Whether the handle names a string of this heap.
    pub fn has(&self, handle: ObjRef) -> (ok: bool)
        requires
            self.wf(),
        ensures
            ok == self.contains(handle),
    {
        if handle.index < self.objects.len() {
            match &self.objects[handle.index] {
                LoxObject::String { value: _, hash } => *hash == handle.hash,
            }
        } else {
            false
        }
    }

    /// The string that a handle names.
    pub fn string(&self, handle: ObjRef) -> (text: &String)
        requires
            handle.index < self@.len(),
        ensures
            text@ == self.text_of(handle),
    {
        match &self.objects[handle.index] {
            LoxObject::String { value, hash: _ } => value,
        }
    }

    /// Interns a text: the handle of the string with this text, which is made if the heap
    /// lacks it. Handles given out before stay good and keep their text.
    pub fn allocate_string(&mut self, val: String) -> (handle: ObjRef)
        requires
            old(self).wf(),
            old(self)@.contains(val@) || old(self).spec_can_allocate(),
        ensures
            final(self).wf(),
            final(self).contains(handle),
            final(self).text_of(handle) == val@,
            final(self)@ == spec_interned(old(self)@, val@),
            handle == spec_handle_of(final(self)@, val@),
    {
        let lox_str = LoxObject::new_string(val);
        let found = self.strings.find_string(&self.objects, &lox_str);
        match found {
            Some(handle) => {
                proof {
                    assert(self@[handle.index as int] == val@);
                    self.lemma_handle_of(handle);
                }
                handle
            },
            None => {
                let hash = match &lox_str {
                    LoxObject::String { value: _, hash } => *hash,
                };
                let handle = ObjRef { index: self.objects.len(), hash };
                proof {
                    assert forall|i: int| 0 <= i < self.objects@.len() implies (
                    #[trigger] self.objects@[i]).text() != val@ by {
                        let k = ObjRef {
                            index: i as usize,
                            hash: self.objects@[i].stored_hash(),
                        };
                        assert(self.strings@.dom().contains(k));
                    }
                    if self@.contains(val@) {
                        let i = choose|i: int| 0 <= i < self@.len() && self@[i] == val@;
                        assert(self.objects@[i].text() == val@);
                    }
                }
                let ghost old_objects = self.objects@;
                let ghost old_strings = self.strings@;
                proof {
                    self.strings.lemma_finite();
                    assert(!old_strings.dom().contains(handle)) by {
                        if old_strings.dom().contains(handle) {
                            assert(handle.index < old_objects.len());
                        }
                    }
                }
                self.objects.push(lox_str);
                self.strings.set(handle, Value::Nil);
                proof {
                    self.strings.lemma_finite();
                }
                proof {
                    assert(self@ =~= old(self)@.push(val@));
                    assert forall|i: int| 0 <= i < self.objects@.len() implies self.strings@.dom().contains(
                        ObjRef {
                            index: i as usize,
                            hash: (#[trigger] self.objects@[i]).stored_hash(),
                        },
                    ) by {
                        if i < old_objects.len() {
                            assert(self.objects@[i] == old_objects[i]);
                            assert(old_strings.dom().contains(
                                ObjRef { index: i as usize, hash: old_objects[i].stored_hash() },
                            ));
                        }
                    }
                    assert forall|k: ObjRef| #[trigger]
                        self.strings@.dom().contains(k) implies k.index < self.objects@.len()
                        && k.hash == self.objects@[k.index as int].stored_hash()
                        && self.strings@[k] is Nil by {
                        if k != handle {
                            assert(old_strings.dom().contains(k));
                            assert(self.objects@[k.index as int] == old_objects[k.index as int]);
                        }
                    }
                    assert(self@[handle.index as int] == val@);
                    self.lemma_handle_of(handle);
                }
                handle
            },
        }
    }

    /// The handle of the string with the text `text`, if the heap holds one.
    pub fn find(&self, text: &str) -> (found: Option<ObjRef>)
        requires
            self.wf(),
        ensures
            match found {
                Some(handle) => self.contains(handle) && self.text_of(handle) == text@ && handle
                    == spec_handle_of(self@, text@),
                None => !self@.contains(text@),
            },
    {
        let probe = LoxObject::new_string(String::from_str(text));
        let found = self.strings.find_string(&self.objects, &probe);
        proof {
            match found {
                Some(handle) => {
                    assert(self@[handle.index as int] == text@);
                    self.lemma_handle_of(handle);
                },
                None => {
                    if self@.contains(text@) {
                        let i = choose|i: int| 0 <= i < self@.len() && self@[i] == text@;
                        let k = ObjRef {
                            index: i as usize,
                            hash: self.objects@[i].stored_hash(),
                        };
                        assert(self.objects@[i].text() == text@);
                        assert(self.strings@.dom().contains(k));
                    }
                },
            }
        }
        found
    }

    /// Interns a text, if the heap holds it or has room for it: the handle of the string
    /// with this text. A full heap that lacks the text stays as it is.
    pub fn try_allocate_string(&mut self, val: String) -> (handle: Option<ObjRef>)
        requires
            old(self).wf(),
        ensures
            final(self).wf(),
            handle is Some <==> old(self)@.contains(val@) || old(self).spec_can_allocate(),
            match handle {
                Some(h) => final(self).contains(h) && final(self).text_of(h) == val@ && final(self)@ == spec_interned(old(self)@, val@) && h == spec_handle_of(final(self)@, val@),
                None => *final(self) == *old(self),
            },
    {
        if !self.can_allocate() && self.find(val.as_str()).is_none() {
            None
        } else {
            Some(self.allocate_string(val))
        }
    }

    /// The concatenation of two strings of the heap, interned, if the heap holds it or has
    /// room for it. A full heap that lacks it stays as it is.
    pub fn concatenate(&mut self, left: ObjRef, right: ObjRef) -> (handle: Option<ObjRef>)
        requires
            old(self).wf(),
            old(self).contains(left),
            old(self).contains(right),
        ensures
            final(self).wf(),
            handle is Some <==> old(self)@.contains(
                old(self).text_of(left) + old(self).text_of(right),
            ) || old(self).spec_can_allocate(),
            match handle {
                Some(h) => final(self).contains(h) && final(self).text_of(h) == old(self).text_of(
                    left,
                ) + old(self).text_of(right) && final(self)@ == spec_interned(
                    old(self)@,
                    old(self).text_of(left) + old(self).text_of(right),
                ) && h == spec_handle_of(
                    final(self)@,
                    old(self).text_of(left) + old(self).text_of(right),
                ),
                None => *final(self) == *old(self),
            },
    {
        let joined = self.string(left).clone().concat(self.string(right).as_str());
        self.try_allocate_string(joined)
    }
}

} // verus!
