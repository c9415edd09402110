//! The note store: an ordered collection of notes, each identified by the
//! pair (tag, title), with bodies mutable in place. Within one tag, titles
//! are unique, and tags and titles never hold a reserved character.

use vstd::prelude::*;
use crate::text::{valid_name, has_invalid_chars, contains_invalid_chars};

verus! {

/// One stored note.
#[derive(Debug, PartialEq)]
pub struct Note {
    pub tag: String,
    pub title: String,
    pub body: String,
}

/// The mathematical content of a note.
pub ghost struct NoteView {
    pub tag: Seq<char>,
    pub title: Seq<char>,
    pub body: Seq<char>,
}

impl View for Note {
    type V = NoteView;

    open spec fn view(&self) -> NoteView {
        NoteView { tag: self.tag@, title: self.title@, body: self.body@ }
    }
}

/// The error taxonomy of the store.
#[derive(Clone, Copy, Debug, PartialEq, Eq)]
pub enum NoteError {
    ValidationError,
    DuplicateNoteError,
    NotFoundError,
}

/// The note at position `i` carries the key (tag, title).
pub open spec fn key_at(s: Seq<NoteView>, tag: Seq<char>, title: Seq<char>, i: int) -> bool {
    0 <= i < s.len() && s[i].tag == tag && s[i].title == title
}

/// Some note carries the key (tag, title).
pub open spec fn has_key(s: Seq<NoteView>, tag: Seq<char>, title: Seq<char>) -> bool {
    exists|i: int| key_at(s, tag, title, i)
}

/// The position of the note with the key (tag, title); meaningful only under
/// `has_key`, and then unique under `store_wf`.
pub open spec fn key_index(s: Seq<NoteView>, tag: Seq<char>, title: Seq<char>) -> int {
    choose|i: int| key_at(s, tag, title, i)
}

/// The body of the note with the key (tag, title).
pub open spec fn body_of(s: Seq<NoteView>, tag: Seq<char>, title: Seq<char>) -> Seq<char> {
    s[key_index(s, tag, title)].body
}

/// The views of a sequence of notes.
pub open spec fn note_views(v: Seq<Note>) -> Seq<NoteView> {
    v.map_values(|n: Note| n@)
}

/// The notes under one tag.
pub open spec fn tag_is(tag: Seq<char>) -> spec_fn(NoteView) -> bool {
    |m: NoteView| m.tag == tag
}

/// The notes with one title.
pub open spec fn title_is(title: Seq<char>) -> spec_fn(NoteView) -> bool {
    |m: NoteView| m.title == title
}

/// The notes with one key.
pub open spec fn key_is(tag: Seq<char>, title: Seq<char>) -> spec_fn(NoteView) -> bool {
    |m: NoteView| m.tag == tag && m.title == title
}

/// Well-formedness: keys are unique and names are valid.
pub open spec fn store_wf(s: Seq<NoteView>) -> bool {
    (forall|i: int, j: int|
        #![trigger s[i], s[j]]
        0 <= i < j < s.len() ==> !(s[i].tag == s[j].tag && s[i].title == s[j].title))
        && (forall|i: int| 0 <= i < s.len() ==> valid_name(#[trigger] s[i].tag) && valid_name(s[i].title))
}

/// Under well-formedness a key occurs at one position only.
pub proof fn lemma_key_unique(s: Seq<NoteView>, tag: Seq<char>, title: Seq<char>, i: int)
    requires
        store_wf(s),
        key_at(s, tag, title, i),
    ensures
        key_index(s, tag, title) == i,
{
    let j = key_index(s, tag, title);
    assert(key_at(s, tag, title, j));
    if i < j {
        assert(!(s[i].tag == s[j].tag && s[i].title == s[j].title));
    } else if j < i {
        assert(!(s[j].tag == s[i].tag && s[j].title == s[i].title));
    }
}

/// The store after deleting the key (tag, title): unchanged when the key is
/// absent.
pub open spec fn delete_spec(s: Seq<NoteView>, tag: Seq<char>, title: Seq<char>) -> Seq<NoteView> {
    if has_key(s, tag, title) {
        s.remove(key_index(s, tag, title))
    } else {
        s
    }
}

/// The store after unconditionally writing `body` under the key (tag, title):
/// an update in place when the key exists, a recreation otherwise.
pub open spec fn overwrite_spec(
    s: Seq<NoteView>,
    tag: Seq<char>,
    title: Seq<char>,
    body: Seq<char>,
) -> Seq<NoteView> {
    if has_key(s, tag, title) {
        s.update(key_index(s, tag, title), NoteView { tag, title, body })
    } else {
        s.push(NoteView { tag, title, body })
    }
}

/// The notes, in enumeration order.
pub struct NoteStore {
    notes: Vec<Note>,
}

impl View for NoteStore {
    type V = Seq<NoteView>;

    closed spec fn view(&self) -> Seq<NoteView> {
        note_views(self.notes@)
    }
}

impl NoteStore {
    /// An empty store.
    pub fn new() -> (s: NoteStore)
        ensures
            s@ == Seq::<NoteView>::empty(),
            store_wf(s@),
    {
        let s = NoteStore { notes: Vec::new() };
        proof {
            assert(s@ =~= Seq::<NoteView>::empty());
        }
        s
    }

    /// The position of the note with the key (tag, title), if any.
    fn find_idx(&self, tag: &String, title: &String) -> (r: Option<usize>)
        ensures
            match r {
                Some(i) => key_at(self@, tag@, title@, i as int),
                None => !has_key(self@, tag@, title@),
            },
    {
        let n = self.notes.len();
        let mut i: usize = 0;
        while i < n
            invariant
                i <= n,
                n == self.notes@.len(),
                forall|k: int| 0 <= k < i ==> !key_at(self@, tag@, title@, k),
            decreases n - i,
        {
            let nt = &self.notes[i];
            if nt.tag == *tag && nt.title == *title {
                return Some(i);
            }
            i += 1;
        }
        None
    }

    /// Creates a note. Fails with `ValidationError` when tag or title holds a
    /// reserved character, with `DuplicateNoteError` when the key already
    /// exists; otherwise appends the note. The store is mutated only on
    /// success.
    pub fn create(&mut self, tag: String, title: String, body: String) -> (r: Result<
        (),
        NoteError,
    >)
        requires
            store_wf(old(self)@),
        ensures
            store_wf(final(self)@),
            match r {
                Ok(()) => valid_name(tag@) && valid_name(title@) && !has_key(
                    old(self)@,
                    tag@,
                    title@,
                ) && final(self)@ == old(self)@.push(
                    NoteView { tag: tag@, title: title@, body: body@ },
                ),
                Err(NoteError::ValidationError) => (has_invalid_chars(tag@) || has_invalid_chars(
                    title@,
                )) && final(self)@ == old(self)@,
                Err(NoteError::DuplicateNoteError) => valid_name(tag@) && valid_name(title@)
                    && has_key(old(self)@, tag@, title@) && final(self)@ == old(self)@,
                Err(NoteError::NotFoundError) => false,
            },
    {
        if contains_invalid_chars(tag.as_str()) || contains_invalid_chars(title.as_str()) {
            return Err(NoteError::ValidationError);
        }
        match self.find_idx(&tag, &title) {
            Some(_) => Err(NoteError::DuplicateNoteError),
            None => {
                let ghost pre = self@;
                let ghost nv = NoteView { tag: tag@, title: title@, body: body@ };
                self.notes.push(Note { tag, title, body });
                proof {
                    assert(self@ =~= pre.push(nv));
                    assert forall|i: int, j: int|
                        #![trigger self@[i], self@[j]]
                        0 <= i < j < self@.len() implies !(self@[i].tag == self@[j].tag
                        && self@[i].title == self@[j].title) by {
                        if j == self@.len() - 1 {
                            assert(!key_at(pre, nv.tag, nv.title, i));
                        }
                    }
                }
                Ok(())
            },
        }
    }

    /// Reads the body of the note with the key (tag, title), or fails with
    /// `NotFoundError`.
    pub fn read(&self, tag: &String, title: &String) -> (r: Result<String, NoteError>)
        requires
            store_wf(self@),
        ensures
            match r {
                Ok(b) => has_key(self@, tag@, title@) && b@ == body_of(self@, tag@, title@),
                Err(NoteError::NotFoundError) => !has_key(self@, tag@, title@),
                _ => false,
            },
    {
        match self.find_idx(tag, title) {
            Some(i) => {
                proof {
                    lemma_key_unique(self@, tag@, title@, i as int);
                }
                Ok(self.notes[i].body.clone())
            },
            None => Err(NoteError::NotFoundError),
        }
    }

    /// Unconditionally writes `body` under the key (tag, title), recreating
    /// the note when it is absent.
    pub fn overwrite(&mut self, tag: String, title: String, body: String)
        requires
            store_wf(old(self)@),
            valid_name(tag@),
            valid_name(title@),
        ensures
            store_wf(final(self)@),
            final(self)@ == overwrite_spec(old(self)@, tag@, title@, body@),
    {
        let ghost pre = self@;
        let ghost nv = NoteView { tag: tag@, title: title@, body: body@ };
        match self.find_idx(&tag, &title) {
            Some(i) => {
                proof {
                    lemma_key_unique(pre, tag@, title@, i as int);
                }
                self.notes.remove(i);
                self.notes.insert(i, Note { tag, title, body });
                proof {
                    assert(self@ =~= pre.update(i as int, nv));
                    assert forall|a: int, b: int|
                        #![trigger self@[a], self@[b]]
                        0 <= a < b < self@.len() implies !(self@[a].tag == self@[b].tag
                        && self@[a].title == self@[b].title) by {
                        assert(pre[a].tag == self@[a].tag || a == i);
                        assert(!(pre[a].tag == pre[b].tag && pre[a].title == pre[b].title));
                        if a == i {
                            assert(self@[a].tag == pre[i as int].tag && self@[a].title == pre[i as int].title);
                        }
                        if b == i {
                            assert(self@[b].tag == pre[i as int].tag && self@[b].title == pre[i as int].title);
                        }
                    }
                }
            },
            None => {
                self.notes.push(Note { tag, title, body });
                proof {
                    assert(self@ =~= pre.push(nv));
                    assert forall|a: int, b: int|
                        #![trigger self@[a], self@[b]]
                        0 <= a < b < self@.len() implies !(self@[a].tag == self@[b].tag
                        && self@[a].title == self@[b].title) by {
                        if b == self@.len() - 1 {
                            assert(!key_at(pre, nv.tag, nv.title, a));
                        }
                    }
                }
            },
        }
    }

    /// Removes the note with the key (tag, title); a no-op when it is absent.
    pub fn delete(&mut self, tag: &String, title: &String)
        requires
            store_wf(old(self)@),
        ensures
            store_wf(final(self)@),
            final(self)@ == delete_spec(old(self)@, tag@, title@),
    {
        let ghost pre = self@;
        match self.find_idx(tag, title) {
            Some(i) => {
                proof {
                    lemma_key_unique(pre, tag@, title@, i as int);
                }
                self.notes.remove(i);
                proof {
                    assert(self@ =~= pre.remove(i as int));
                    assert forall|a: int, b: int|
                        #![trigger self@[a], self@[b]]
                        0 <= a < b < self@.len() implies !(self@[a].tag == self@[b].tag
                        && self@[a].title == self@[b].title) by {
                        let a0 = if a < i { a } else { a + 1 };
                        let b0 = if b < i { b } else { b + 1 };
                        assert(self@[a] == pre[a0] && self@[b] == pre[b0]);
                        assert(!(pre[a0].tag == pre[b0].tag && pre[a0].title == pre[b0].title));
                    }
                }
            },
            None => {},
        }
    }

    /// All notes under `tag`, in enumeration order.
    pub fn list_tag(&self, tag: &String) -> (r: Vec<Note>)
        ensures
            note_views(r@) == self@.filter(tag_is(tag@)),
    {
        let n = self.notes.len();
        let mut out: Vec<Note> = Vec::new();
        let mut i: usize = 0;
        proof {
            reveal(Seq::filter);
            assert(note_views(out@) =~= self@.subrange(0, 0).filter(tag_is(tag@)));
        }
        while i < n
            invariant
                i <= n,
                n == self.notes@.len(),
                note_views(out@) == self@.subrange(0, i as int).filter(tag_is(tag@)),
            decreases n - i,
        {
            let ghost prefix = self@.subrange(0, i as int);
            let ghost prefix2 = self@.subrange(0, i + 1);
            proof {
                reveal(Seq::filter);
                assert(prefix2.drop_last() =~= prefix);
                assert(prefix2.last() == self@[i as int]);
            }
            let nt = &self.notes[i];
            if nt.tag == *tag {
                let ghost prev = out@;
                out.push(
                    Note { tag: nt.tag.clone(), title: nt.title.clone(), body: nt.body.clone() },
                );
                proof {
                    reveal(Seq::filter);
                    assert(tag_is(tag@)(self@[i as int]));
                    assert(prefix2.filter(tag_is(tag@)) == prefix.filter(tag_is(tag@)).push(
                        self@[i as int],
                    ));
                    assert(out@[out@.len() - 1]@ == self@[i as int]);
                    assert(note_views(out@) =~= note_views(prev).push(self@[i as int]));
                }
            } else {
                proof {
                    reveal(Seq::filter);
                    assert(!tag_is(tag@)(self@[i as int]));
                    assert(prefix2.filter(tag_is(tag@)) == prefix.filter(tag_is(tag@)));
                }
            }
            i += 1;
        }
        proof {
            assert(self@.subrange(0, n as int) =~= self@);
        }
        out
    }

    /// All notes, in enumeration order.
    pub fn list_all(&self) -> (r: Vec<Note>)
        ensures
            note_views(r@) == self@,
    {
        let n = self.notes.len();
        let mut out: Vec<Note> = Vec::new();
        let mut i: usize = 0;
        while i < n
            invariant
                i <= n,
                n == self.notes@.len(),
                note_views(out@) == self@.subrange(0, i as int),
            decreases n - i,
        {
            let ghost prev = out@;
            let nt = &self.notes[i];
            out.push(Note { tag: nt.tag.clone(), title: nt.title.clone(), body: nt.body.clone() });
            proof {
                assert(note_views(prev) == self@.subrange(0, i as int));
                assert(note_views(prev).len() == i as int);
                assert(prev.len() == i as int);
                assert(out@ == prev.push(out@[out@.len() - 1]));
                assert(out@[out@.len() - 1]@ == self@[i as int]);
                assert forall|k: int| 0 <= k < i implies note_views(out@)[k] == self@[k] by {
                    assert(out@[k] == prev[k]);
                    assert(note_views(prev)[k] == self@.subrange(0, i as int)[k]);
                }
                assert(note_views(out@) =~= self@.subrange(0, i + 1));
            }
            i += 1;
        }
        proof {
            assert(self@.subrange(0, n as int) =~= self@);
        }
        out
    }
}

// ---------------------------------------------------------------------------
// Laws
// ---------------------------------------------------------------------------

/// Filtering keeps nothing when nothing satisfies the predicate.
proof fn lemma_filter_none(s: Seq<NoteView>, p: spec_fn(NoteView) -> bool)
    requires
        forall|i: int| 0 <= i < s.len() ==> !p(s[i]),
    ensures
        s.filter(p) == Seq::<NoteView>::empty(),
    decreases s.len(),
{
    reveal(Seq::filter);
    if s.len() == 0 {
        assert(s.filter(p) =~= Seq::<NoteView>::empty());
    } else {
        assert(forall|i: int| 0 <= i < s.drop_last().len() ==> s.drop_last()[i] == s[i]);
        lemma_filter_none(s.drop_last(), p);
        assert(!p(s.last()));
    }
}

/// Filtering by tag and then by title is filtering by the key.
proof fn lemma_filter_tag_title(s: Seq<NoteView>, tag: Seq<char>, title: Seq<char>)
    ensures
        s.filter(tag_is(tag)).filter(title_is(title)) == s.filter(key_is(tag, title)),
    decreases s.len(),
{
    reveal(Seq::filter);
    if s.len() == 0 {
    } else {
        let t = s.drop_last();
        let x = s.last();
        lemma_filter_tag_title(t, tag, title);
        if tag_is(tag)(x) {
            assert(s.filter(tag_is(tag)) == t.filter(tag_is(tag)).push(x));
            assert(s.filter(tag_is(tag)).drop_last() =~= t.filter(tag_is(tag)));
            assert(s.filter(tag_is(tag)).last() == x);
        } else {
            assert(s.filter(tag_is(tag)) == t.filter(tag_is(tag)));
        }
    }
}

/// Law: creating a note and then listing its tag yields the previous listing
/// with the new note appended, and the new key occurs in it exactly once.
pub proof fn lemma_create_then_list(
    s: Seq<NoteView>,
    tag: Seq<char>,
    title: Seq<char>,
    body: Seq<char>,
)
    requires
        store_wf(s),
        !has_key(s, tag, title),
    ensures
        ({
            let nv = NoteView { tag, title, body };
            let listed = s.push(nv).filter(tag_is(tag));
            listed == s.filter(tag_is(tag)).push(nv) && listed.filter(title_is(title)) == seq![nv]
        }),
{
    reveal(Seq::filter);
    let nv = NoteView { tag, title, body };
    let pushed = s.push(nv);
    assert(pushed.drop_last() =~= s);
    assert(pushed.last() == nv);
    let listed = pushed.filter(tag_is(tag));
    assert(tag_is(tag)(nv));
    assert(listed == s.filter(tag_is(tag)).push(nv));
    lemma_filter_tag_title(pushed, tag, title);
    assert(listed.filter(title_is(title)) == pushed.filter(key_is(tag, title)));
    assert forall|i: int| 0 <= i < s.len() implies !key_is(tag, title)(s[i]) by {
        if key_is(tag, title)(s[i]) {
            assert(key_at(s, tag, title, i));
        }
    }
    lemma_filter_none(s, key_is(tag, title));
    assert(key_is(tag, title)(nv));
    assert(pushed.filter(key_is(tag, title)) == s.filter(key_is(tag, title)).push(nv));
    assert(listed.filter(title_is(title)) =~= seq![nv]);
}

/// Law: deleting a key twice is the same as deleting it once; in particular a
/// delete of an absent key changes nothing and raises no error.
pub proof fn lemma_delete_idempotent(s: Seq<NoteView>, tag: Seq<char>, title: Seq<char>)
    requires
        store_wf(s),
    ensures
        delete_spec(delete_spec(s, tag, title), tag, title) == delete_spec(s, tag, title),
{
    if has_key(s, tag, title) {
        let i = key_index(s, tag, title);
        assert(key_at(s, tag, title, i));
        let s2 = s.remove(i);
        assert forall|j: int| 0 <= j < s2.len() implies !key_at(s2, tag, title, j) by {
            let j0 = if j < i { j } else { j + 1 };
            assert(s2[j] == s[j0]);
            if key_at(s2, tag, title, j) {
                assert(key_at(s, tag, title, j0));
                lemma_key_unique(s, tag, title, j0);
            }
        }
        assert(!has_key(s2, tag, title));
    }
}

} // verus!
