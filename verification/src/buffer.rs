//! The output of tests that have not finished yet.

use crate::event::{GoTestKey, KeyView};
use vstd::prelude::*;
use vstd::string::*;

verus! {

/// The output gathered so far for one stream.
#[derive(Debug)]
pub struct Pending {
    pub key: GoTestKey,
    pub text: String,
}

/// The mathematical value of a [`Pending`].
pub ghost struct PendingView {
    pub key: KeyView,
    pub text: Seq<char>,
}

impl View for Pending {
    type V = PendingView;

    open spec fn view(&self) -> PendingView {
        PendingView { key: self.key@, text: self.text@ }
    }
}

/// The place of the first entry for `key` at or after `from`.
pub open spec fn slot(buffer: Seq<PendingView>, key: KeyView, from: int) -> Option<int>
    decreases buffer.len() - from,
{
    if from < 0 || from >= buffer.len() {
        None
    } else if buffer[from].key == key {
        Some(from)
    } else {
        slot(buffer, key, from + 1)
    }
}

/// The output gathered for `key`; the empty text where there is none.
pub open spec fn held(buffer: Seq<PendingView>, key: KeyView) -> Seq<char> {
    match slot(buffer, key, 0) {
        Some(i) => buffer[i].text,
        None => Seq::empty(),
    }
}

/// The buffer without its entry for `key`.
pub open spec fn without(buffer: Seq<PendingView>, key: KeyView) -> Seq<PendingView> {
    match slot(buffer, key, 0) {
        Some(i) => buffer.remove(i),
        None => buffer,
    }
}

/// The buffer with `text` added to what it holds for `key`, in a new entry at
/// the end where it held nothing.
pub open spec fn with_more(buffer: Seq<PendingView>, key: KeyView, text: Seq<char>) -> Seq<
    PendingView,
> {
    match slot(buffer, key, 0) {
        Some(i) => buffer.update(i, PendingView { key, text: buffer[i].text + text }),
        None => buffer.push(PendingView { key, text }),
    }
}

/// The number of characters that the buffer holds.
pub open spec fn mass(buffer: Seq<PendingView>) -> nat
    decreases buffer.len(),
{
    if buffer.len() == 0 {
        0
    } else {
        mass(buffer.drop_last()) + buffer.last().text.len()
    }
}

/// No two entries are for the same key.
pub open spec fn distinct(buffer: Seq<PendingView>) -> bool {
    forall|i: int, j: int| 0 <= i < j < buffer.len() ==> buffer[i].key != buffer[j].key
}

/// What `slot` finds is an entry for the key, and the first one.
pub proof fn lemma_slot(buffer: Seq<PendingView>, key: KeyView, from: int)
    requires
        0 <= from,
    ensures
        match slot(buffer, key, from) {
            Some(i) => from <= i < buffer.len() && buffer[i].key == key && forall|k: int|
                from <= k < i ==> buffer[k].key != key,
            None => forall|k: int| from <= k < buffer.len() ==> buffer[k].key != key,
        },
    decreases buffer.len() - from,
{
    if from < buffer.len() && buffer[from].key != key {
        lemma_slot(buffer, key, from + 1);
    }
}

/// Putting another text in place of one changes the mass by the difference.
pub proof fn lemma_mass_update(buffer: Seq<PendingView>, i: int, entry: PendingView)
    requires
        0 <= i < buffer.len(),
    ensures
        mass(buffer.update(i, entry)) + buffer[i].text.len() == mass(buffer) + entry.text.len(),
    decreases buffer.len(),
{
    let after = buffer.update(i, entry);
    if i == buffer.len() - 1 {
        assert(after.drop_last() =~= buffer.drop_last());
    } else {
        lemma_mass_update(buffer.drop_last(), i, entry);
        assert(after.drop_last() =~= buffer.drop_last().update(i, entry));
    }
}

/// Taking an entry out takes its text from the mass.
pub proof fn lemma_mass_remove(buffer: Seq<PendingView>, i: int)
    requires
        0 <= i < buffer.len(),
    ensures
        mass(buffer.remove(i)) + buffer[i].text.len() == mass(buffer),
    decreases buffer.len(),
{
    let after = buffer.remove(i);
    if i == buffer.len() - 1 {
        assert(after =~= buffer.drop_last());
    } else {
        lemma_mass_remove(buffer.drop_last(), i);
        assert(after.drop_last() =~= buffer.drop_last().remove(i));
        assert(after.last() == buffer.last());
    }
}

/// Adding a text adds its length to the mass.
pub proof fn lemma_mass_with_more(buffer: Seq<PendingView>, key: KeyView, text: Seq<char>)
    ensures
        mass(with_more(buffer, key, text)) == mass(buffer) + text.len(),
{
    lemma_slot(buffer, key, 0);
    match slot(buffer, key, 0) {
        Some(i) => {
            lemma_mass_update(buffer, i, PendingView { key, text: buffer[i].text + text });
        },
        None => {
            let after = buffer.push(PendingView { key, text });
            assert(after.drop_last() =~= buffer);
        },
    }
}

/// What is taken out and what is left make up the mass.
pub proof fn lemma_mass_without(buffer: Seq<PendingView>, key: KeyView)
    ensures
        mass(without(buffer, key)) + held(buffer, key).len() == mass(buffer),
{
    lemma_slot(buffer, key, 0);
    match slot(buffer, key, 0) {
        Some(i) => {
            lemma_mass_remove(buffer, i);
        },
        None => {},
    }
}

/// What is held for a key after more was added is what was held before and
/// then what was added; what is held for any other key is what it was.
pub proof fn lemma_held_with_more(
    buffer: Seq<PendingView>,
    key: KeyView,
    text: Seq<char>,
    other: KeyView,
)
    ensures
        held(with_more(buffer, key, text), key) == held(buffer, key) + text,
        other != key ==> held(with_more(buffer, key, text), other) == held(buffer, other),
{
    let after = with_more(buffer, key, text);
    lemma_slot(buffer, key, 0);
    lemma_slot(after, key, 0);
    lemma_slot(buffer, other, 0);
    lemma_slot(after, other, 0);
    match slot(buffer, key, 0) {
        Some(i) => {
            assert(after[i].key == key);
        },
        None => {
            assert(after[buffer.len() as int].key == key);
            assert(held(buffer, key) + text =~= text);
        },
    }
    if other != key {
        match slot(buffer, other, 0) {
            Some(j) => {
                assert(after[j].key == other);
            },
            None => {},
        }
    }
}

/// Once the entry for a key is taken out, nothing is held for that key, and
/// what is held for any other key is what it was.
pub proof fn lemma_held_without(buffer: Seq<PendingView>, key: KeyView, other: KeyView)
    requires
        distinct(buffer),
    ensures
        slot(without(buffer, key), key, 0) is None,
        held(without(buffer, key), key) == Seq::<char>::empty(),
        other != key ==> held(without(buffer, key), other) == held(buffer, other),
{
    let after = without(buffer, key);
    lemma_slot(buffer, key, 0);
    lemma_slot(after, key, 0);
    lemma_slot(buffer, other, 0);
    lemma_slot(after, other, 0);
    match slot(buffer, key, 0) {
        Some(i) => {
            if let Some(k) = slot(after, key, 0) {
                if k < i {
                    assert(after[k] == buffer[k]);
                } else {
                    assert(after[k] == buffer[k + 1]);
                }
            }
            if other != key {
                match slot(buffer, other, 0) {
                    Some(j) => {
                        if j < i {
                            assert(after[j] == buffer[j]);
                        } else {
                            assert(after[j - 1] == buffer[j]);
                        }
                        let found = slot(after, other, 0)->0;
                        if found < i {
                            assert(after[found] == buffer[found]);
                        } else {
                            assert(after[found] == buffer[found + 1]);
                        }
                    },
                    None => {
                        if let Some(k) = slot(after, other, 0) {
                            if k < i {
                                assert(after[k] == buffer[k]);
                            } else {
                                assert(after[k] == buffer[k + 1]);
                            }
                        }
                    },
                }
            }
        },
        None => {},
    }
}

/// Adding to a buffer and taking from it leave its keys distinct.
pub proof fn lemma_distinct_kept(buffer: Seq<PendingView>, key: KeyView, text: Seq<char>)
    requires
        distinct(buffer),
    ensures
        distinct(with_more(buffer, key, text)),
        distinct(without(buffer, key)),
{
    lemma_slot(buffer, key, 0);
}

/// The output of the tests that are still running, by stream.
#[derive(Debug)]
pub struct Buffer {
    entries: Vec<Pending>,
}

impl View for Buffer {
    type V = Seq<PendingView>;

    closed spec fn view(&self) -> Seq<PendingView> {
        Seq::new(self.entries@.len(), |i: int| self.entries@[i]@)
    }
}

impl Buffer {
    /// What holds of every buffer: no two entries are for the same stream.
    #[verifier::type_invariant]
    pub open spec fn keys_distinct(&self) -> bool {
        distinct(self@)
    }

    /// An empty buffer.
    pub fn new() -> (r: Buffer)
        ensures
            r@ == Seq::<PendingView>::empty(),
    {
        let r = Buffer { entries: Vec::new() };
        assert(r@ =~= Seq::<PendingView>::empty());
        r
    }

    /// The number of streams for which output is held.
    pub fn len(&self) -> (r: usize)
        ensures
            r == self@.len(),
    {
        self.entries.len()
    }

    /// The output held for `key`, if any is.
    pub fn get(&self, key: &GoTestKey) -> (r: Option<String>)
        ensures
            match r {
                Some(text) => slot(self@, key@, 0) is Some && text@ == held(self@, key@),
                None => slot(self@, key@, 0) is None,
            },
    {
        match self.find(key) {
            Some(i) => Some(self.entries[i].text.clone()),
            None => None,
        }
    }

    /// Finds the entry for `key`.
    fn find(&self, key: &GoTestKey) -> (r: Option<usize>)
        ensures
            match r {
                Some(i) => slot(self@, key@, 0) == Some(i as int) && i < self.entries.len(),
                None => slot(self@, key@, 0) is None,
            },
    {
        let mut i: usize = 0;
        while i < self.entries.len()
            invariant
                i <= self.entries.len(),
                slot(self@, key@, 0) == slot(self@, key@, i as int),
            decreases self.entries.len() - i,
        {
            if self.entries[i].key.same(key) {
                return Some(i);
            }
            i = i + 1;
        }
        None
    }

    /// Adds `text` to the output gathered for `key`.
    pub fn append(&mut self, key: GoTestKey, text: &str)
        ensures
            final(self)@ == with_more(old(self)@, key@, text@),
            distinct(old(self)@),
            distinct(final(self)@),
    {
        proof {
            use_type_invariant(&*self);
            lemma_distinct_kept(self@, key@, text@);
            lemma_slot(self@, key@, 0);
        }
        let found = self.find(&key);
        let mut taken = Buffer::new();
        core::mem::swap(self, &mut taken);
        let mut entries = taken.entries;
        match found {
            Some(i) => {
                let mut entry = entries.remove(i);
                entry.text.append(text);
                assert(entry@ == PendingView { key: key@, text: old(self)@[i as int].text + text@ });
                entries.insert(i, entry);
            },
            None => {
                entries.push(Pending { key, text: String::from_str(text) });
            },
        }
        let ghost after = Buffer { entries };
        assert(after@ =~= with_more(old(self)@, key@, text@));
        *self = Buffer { entries };
    }

    /// Takes out the output gathered for `key`: the empty string where there
    /// is none.
    pub fn take(&mut self, key: &GoTestKey) -> (r: String)
        ensures
            r@ == held(old(self)@, key@),
            final(self)@ == without(old(self)@, key@),
            distinct(old(self)@),
            distinct(final(self)@),
    {
        proof {
            use_type_invariant(&*self);
            lemma_distinct_kept(self@, key@, Seq::empty());
        }
        match self.find(key) {
            Some(i) => {
                let mut taken = Buffer::new();
                core::mem::swap(self, &mut taken);
                let mut entries = taken.entries;
                let entry = entries.remove(i);
                let ghost after = Buffer { entries };
                assert(after@ =~= without(old(self)@, key@));
                *self = Buffer { entries };
                entry.text
            },
            None => String::new(),
        }
    }
}

} // verus!
