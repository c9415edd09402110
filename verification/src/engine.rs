//! The engine: one inbound text event first feeds the single pending-edit
//! slot (when occupied, the text replaces that note's body and the slot
//! clears), then runs through the classifier, whose intents drive the store
//! and the searches; an inbound action token shows, deletes, or marks a note
//! for editing. Replies carry what the transport should send back.

use vstd::prelude::*;
use vstd::string::*;
use crate::store::{
    NoteView, NoteStore, NoteError, note_views, tag_is, has_key, key_at, key_index, body_of,
    store_wf, overwrite_spec, delete_spec, lemma_key_unique,
};
use crate::search::{title_pred, content_pred, search_title, search_content};
use crate::classify::{Intent, IntentView, intent_views, classify, classify_spec};
use crate::encoder::{message_spec, grid_spec, create_message_and_keyboard};
use crate::token::{Verb, token_spec, decode_spec, decode_token, encode_token};
use crate::text::{valid_name, lower_of};

verus! {

/// The pending-edit slot: at most one note awaiting replacement text.
pub enum EditState {
    Idle,
    AwaitingText { tag: String, title: String },
}

pub open spec fn slot_view(s: EditState) -> Option<(Seq<char>, Seq<char>)> {
    match s {
        EditState::Idle => Option::None,
        EditState::AwaitingText { tag, title } => Option::Some((tag@, title@)),
    }
}

/// What the engine asks the transport to send back.
#[derive(Debug, PartialEq)]
pub enum Reply {
    NoteCreated,
    DuplicateNote,
    InvalidName,
    MalformedCommand,
    NoteEdited,
    NoNotesFound,
    SearchResults { message: String, keyboard: Vec<Vec<String>> },
    ShowNote {
        tag: String,
        title: String,
        body: String,
        delete_token: String,
        edit_token: String,
    },
    NoteDeleted,
    EditPrompt,
}

/// The mathematical content of a reply.
pub ghost enum ReplyView {
    NoteCreated,
    DuplicateNote,
    InvalidName,
    MalformedCommand,
    NoteEdited,
    NoNotesFound,
    SearchResults { message: Seq<char>, keyboard: Seq<Seq<Seq<char>>> },
    ShowNote {
        tag: Seq<char>,
        title: Seq<char>,
        body: Seq<char>,
        delete_token: Seq<char>,
        edit_token: Seq<char>,
    },
    NoteDeleted,
    EditPrompt,
}

impl View for Reply {
    type V = ReplyView;

    open spec fn view(&self) -> ReplyView {
        match self {
            Reply::NoteCreated => ReplyView::NoteCreated,
            Reply::DuplicateNote => ReplyView::DuplicateNote,
            Reply::InvalidName => ReplyView::InvalidName,
            Reply::MalformedCommand => ReplyView::MalformedCommand,
            Reply::NoteEdited => ReplyView::NoteEdited,
            Reply::NoNotesFound => ReplyView::NoNotesFound,
            Reply::SearchResults { message, keyboard } => ReplyView::SearchResults {
                message: message@,
                keyboard: keyboard.deep_view(),
            },
            Reply::ShowNote { tag, title, body, delete_token, edit_token } => ReplyView::ShowNote {
                tag: tag@,
                title: title@,
                body: body@,
                delete_token: delete_token@,
                edit_token: edit_token@,
            },
            Reply::NoteDeleted => ReplyView::NoteDeleted,
            Reply::EditPrompt => ReplyView::EditPrompt,
        }
    }
}

/// The views of a sequence of replies.
pub open spec fn reply_views(v: Seq<Reply>) -> Seq<ReplyView> {
    v.map_values(|r: Reply| r@)
}

/// The engine's state: the store and the pending-edit slot.
pub struct Engine {
    store: NoteStore,
    slot: EditState,
}

/// The mathematical content of the engine's state.
pub ghost struct EngineView {
    pub notes: Seq<NoteView>,
    pub slot: Option<(Seq<char>, Seq<char>)>,
}

impl View for Engine {
    type V = EngineView;

    closed spec fn view(&self) -> EngineView {
        EngineView { notes: self.store@, slot: slot_view(self.slot) }
    }
}

/// The store is well-formed and an occupied slot holds valid names.
pub open spec fn engine_wf(v: EngineView) -> bool {
    store_wf(v.notes) && match v.slot {
        Option::Some(k) => valid_name(k.0) && valid_name(k.1),
        Option::None => true,
    }
}

/// What a match set answers: a fixed no-notes reply when empty, else the
/// rendered message and token grid.
pub open spec fn list_reply(ms: Seq<NoteView>) -> Seq<ReplyView> {
    if ms.len() == 0 {
        seq![ReplyView::NoNotesFound]
    } else {
        seq![ReplyView::SearchResults { message: message_spec(ms), keyboard: grid_spec(ms) }]
    }
}

/// The store change and the replies of one intent.
pub open spec fn apply_intent(notes: Seq<NoteView>, it: IntentView) -> (
    Seq<NoteView>,
    Seq<ReplyView>,
) {
    match it {
        IntentView::CreateNote { tag, title, body } => {
            if !(valid_name(tag) && valid_name(title)) {
                (notes, seq![ReplyView::InvalidName])
            } else if has_key(notes, tag, title) {
                (notes, seq![ReplyView::DuplicateNote])
            } else {
                (notes.push(NoteView { tag, title, body }), seq![ReplyView::NoteCreated])
            }
        },
        IntentView::ListByTag { tag } => (notes, list_reply(notes.filter(tag_is(tag)))),
        IntentView::SearchTitle { tag, phrase } => (
            notes,
            list_reply(notes.filter(title_pred(tag, lower_of(phrase)))),
        ),
        IntentView::SearchContent { tag, phrase } => (
            notes,
            list_reply(notes.filter(content_pred(tag, lower_of(phrase)))),
        ),
        IntentView::Malformed => (notes, seq![ReplyView::MalformedCommand]),
    }
}

/// The store change and the replies of a sequence of intents, in order.
pub open spec fn apply_intents(notes: Seq<NoteView>, its: Seq<IntentView>) -> (
    Seq<NoteView>,
    Seq<ReplyView>,
)
    decreases its.len(),
{
    if its.len() == 0 {
        (notes, Seq::<ReplyView>::empty())
    } else {
        let st = apply_intent(notes, its[0]);
        let rest = apply_intents(st.0, its.drop_first());
        (rest.0, st.1 + rest.1)
    }
}

/// One inbound text event: an occupied slot consumes the text as the new
/// body of its note and clears; the same text then runs through the
/// classifier and its intents apply in order.
pub open spec fn text_step(v: EngineView, text: Seq<char>) -> (EngineView, Seq<ReplyView>) {
    let notes1 = match v.slot {
        Option::Some(k) => overwrite_spec(v.notes, k.0, k.1, text),
        Option::None => v.notes,
    };
    let pre = match v.slot {
        Option::Some(k) => seq![ReplyView::NoteEdited],
        Option::None => Seq::<ReplyView>::empty(),
    };
    let res = apply_intents(notes1, classify_spec(text));
    (EngineView { notes: res.0, slot: Option::None }, pre + res.1)
}

/// One inbound action token: a view shows the note when it exists, a delete
/// removes it (a no-op when absent) and always confirms, an edit marks an
/// existing note in the slot and prompts. Undecodable tokens do nothing.
pub open spec fn action_step(v: EngineView, token: Seq<char>) -> (EngineView, Seq<ReplyView>) {
    match decode_spec(token) {
        Option::None => (v, Seq::<ReplyView>::empty()),
        Option::Some(a) => match a.verb {
            Verb::View => {
                if has_key(v.notes, a.tag, a.title) {
                    (
                        v,
                        seq![
                            ReplyView::ShowNote {
                                tag: a.tag,
                                title: a.title,
                                body: body_of(v.notes, a.tag, a.title),
                                delete_token: token_spec(Verb::Delete, a.tag, a.title),
                                edit_token: token_spec(Verb::Edit, a.tag, a.title),
                            },
                        ],
                    )
                } else {
                    (v, Seq::<ReplyView>::empty())
                }
            },
            Verb::Delete => (
                EngineView { notes: delete_spec(v.notes, a.tag, a.title), slot: v.slot },
                seq![ReplyView::NoteDeleted],
            ),
            Verb::Edit => {
                if has_key(v.notes, a.tag, a.title) {
                    (
                        EngineView { notes: v.notes, slot: Option::Some((a.tag, a.title)) },
                        seq![ReplyView::EditPrompt],
                    )
                } else {
                    (v, Seq::<ReplyView>::empty())
                }
            },
        },
    }
}

impl Engine {
    /// A fresh engine: empty store, idle slot.
    pub fn new() -> (e: Engine)
        ensures
            engine_wf(e@),
            e@.notes == Seq::<NoteView>::empty(),
            e@.slot == Option::<(Seq<char>, Seq<char>)>::None,
    {
        Engine { store: NoteStore::new(), slot: EditState::Idle }
    }

    /// The note currently awaiting replacement text, if any.
    pub fn pending_edit(&self) -> (r: Option<(String, String)>)
        ensures
            match (r, self@.slot) {
                (Option::Some(p), Option::Some(q)) => p.0@ == q.0 && p.1@ == q.1,
                (Option::None, Option::None) => true,
                _ => false,
            },
    {
        match &self.slot {
            EditState::Idle => None,
            EditState::AwaitingText { tag, title } => Some((tag.clone(), title.clone())),
        }
    }

    /// Handles one inbound text event, as `text_step` says.
    pub fn handle_text(&mut self, text: &str) -> (r: Vec<Reply>)
        requires
            engine_wf(old(self)@),
        ensures
            engine_wf(final(self)@),
            final(self)@ == text_step(old(self)@, text@).0,
            reply_views(r@) == text_step(old(self)@, text@).1,
    {
        let ghost v0 = self@;
        let ghost target = text_step(v0, text@);
        let mut replies: Vec<Reply> = Vec::new();
        let pending: Option<(String, String)> = match &self.slot {
            EditState::AwaitingText { tag, title } => Some((tag.clone(), title.clone())),
            EditState::Idle => None,
        };
        match pending {
            Some(p) => {
                self.store.overwrite(p.0, p.1, String::from_str(text));
                self.slot = EditState::Idle;
                replies.push(Reply::NoteEdited);
                proof {
                    assert(reply_views(replies@) =~= seq![ReplyView::NoteEdited]);
                }
            },
            None => {
                proof {
                    assert(reply_views(replies@) =~= Seq::<ReplyView>::empty());
                }
            },
        }
        let ghost pre = reply_views(replies@);
        let ghost its = classify_spec(text@);
        proof {
            assert(target.0.notes == apply_intents(self.store@, its).0);
            assert(target.1 == pre + apply_intents(self.store@, its).1);
            assert(its.skip(0) =~= its);
        }
        let intents = classify(text);
        let n = intents.len();
        let mut k: usize = 0;
        while k < n
            invariant
                k <= n,
                n == intents@.len(),
                intent_views(intents@) == its,
                store_wf(self.store@),
                slot_view(self.slot) == Option::<(Seq<char>, Seq<char>)>::None,
                target.0.notes == apply_intents(self.store@, its.skip(k as int)).0,
                target.1 == reply_views(replies@) + apply_intents(self.store@, its.skip(k as int)).1,
            decreases n - k,
        {
            let ghost s_pre = self.store@;
            let ghost r_pre = replies@;
            let ghost itv = its[k as int];
            let ghost st = apply_intent(s_pre, itv);
            proof {
                assert(intents@[k as int]@ == its[k as int]);
            }
            let it = &intents[k];
            match it {
                Intent::CreateNote { tag, title, body } => {
                    let res = self.store.create(tag.clone(), title.clone(), body.clone());
                    match res {
                        Ok(()) => {
                            replies.push(Reply::NoteCreated);
                            proof {
                                assert(st.0 == self.store@);
                                assert(st.1 =~= seq![ReplyView::NoteCreated]);
                            }
                        },
                        Err(NoteError::ValidationError) => {
                            replies.push(Reply::InvalidName);
                            proof {
                                assert(st.0 == self.store@);
                                assert(st.1 =~= seq![ReplyView::InvalidName]);
                            }
                        },
                        Err(NoteError::DuplicateNoteError) => {
                            replies.push(Reply::DuplicateNote);
                            proof {
                                assert(st.0 == self.store@);
                                assert(st.1 =~= seq![ReplyView::DuplicateNote]);
                            }
                        },
                        Err(NoteError::NotFoundError) => {
                            proof {
                                assert(false);
                            }
                        },
                    }
                },
                Intent::ListByTag { tag } => {
                    let ms = self.store.list_tag(tag);
                    if ms.len() == 0 {
                        replies.push(Reply::NoNotesFound);
                        proof {
                            assert(note_views(ms@).len() == 0);
                            assert(st.1 =~= seq![ReplyView::NoNotesFound]);
                        }
                    } else {
                        let rendered = create_message_and_keyboard(&ms);
                        replies.push(
                            Reply::SearchResults { message: rendered.0, keyboard: rendered.1 },
                        );
                        proof {
                            assert(note_views(ms@).len() > 0);
                            assert(st.1 =~= seq![
                                ReplyView::SearchResults {
                                    message: message_spec(note_views(ms@)),
                                    keyboard: grid_spec(note_views(ms@)),
                                },
                            ]);
                        }
                    }
                    proof {
                        assert(st.0 == self.store@);
                    }
                },
                Intent::SearchTitle { tag, phrase } => {
                    let ms = search_title(&self.store, tag, phrase.as_str());
                    if ms.len() == 0 {
                        replies.push(Reply::NoNotesFound);
                        proof {
                            assert(note_views(ms@).len() == 0);
                            assert(st.1 =~= seq![ReplyView::NoNotesFound]);
                        }
                    } else {
                        let rendered = create_message_and_keyboard(&ms);
                        replies.push(
                            Reply::SearchResults { message: rendered.0, keyboard: rendered.1 },
                        );
                        proof {
                            assert(note_views(ms@).len() > 0);
                            assert(st.1 =~= seq![
                                ReplyView::SearchResults {
                                    message: message_spec(note_views(ms@)),
                                    keyboard: grid_spec(note_views(ms@)),
                                },
                            ]);
                        }
                    }
                    proof {
                        assert(st.0 == self.store@);
                    }
                },
                Intent::SearchContent { tag, phrase } => {
                    let ms = search_content(&self.store, tag, phrase.as_str());
                    if ms.len() == 0 {
                        replies.push(Reply::NoNotesFound);
                        proof {
                            assert(note_views(ms@).len() == 0);
                            assert(st.1 =~= seq![ReplyView::NoNotesFound]);
                        }
                    } else {
                        let rendered = create_message_and_keyboard(&ms);
                        replies.push(
                            Reply::SearchResults { message: rendered.0, keyboard: rendered.1 },
                        );
                        proof {
                            assert(note_views(ms@).len() > 0);
                            assert(st.1 =~= seq![
                                ReplyView::SearchResults {
                                    message: message_spec(note_views(ms@)),
                                    keyboard: grid_spec(note_views(ms@)),
                                },
                            ]);
                        }
                    }
                    proof {
                        assert(st.0 == self.store@);
                    }
                },
                Intent::Malformed => {
                    replies.push(Reply::MalformedCommand);
                    proof {
                        assert(st.0 == self.store@);
                        assert(st.1 =~= seq![ReplyView::MalformedCommand]);
                    }
                },
            }
            proof {
                assert(its.skip(k as int).drop_first() =~= its.skip(k + 1));
                assert(its.skip(k as int)[0] == its[k as int]);
                assert(apply_intents(s_pre, its.skip(k as int)).0 == apply_intents(
                    self.store@,
                    its.skip(k + 1),
                ).0);
                assert(apply_intents(s_pre, its.skip(k as int)).1 == st.1 + apply_intents(
                    self.store@,
                    its.skip(k + 1),
                ).1);
                assert(reply_views(replies@) =~= reply_views(r_pre) + st.1);
                assert(reply_views(r_pre) + (st.1 + apply_intents(self.store@, its.skip(k + 1)).1)
                    =~= (reply_views(r_pre) + st.1) + apply_intents(
                    self.store@,
                    its.skip(k + 1),
                ).1);
            }
            k += 1;
        }
        proof {
            assert(its.skip(n as int) =~= Seq::<IntentView>::empty());
            assert(apply_intents(self.store@, its.skip(n as int)).0 == self.store@);
            assert(target.1 =~= reply_views(replies@));
            assert(self@ == target.0);
        }
        replies
    }

    /// Handles one inbound action token, as `action_step` says.
    pub fn handle_action(&mut self, token: &str) -> (r: Vec<Reply>)
        requires
            engine_wf(old(self)@),
        ensures
            engine_wf(final(self)@),
            final(self)@ == action_step(old(self)@, token@).0,
            reply_views(r@) == action_step(old(self)@, token@).1,
    {
        let ghost v0 = self@;
        let mut replies: Vec<Reply> = Vec::new();
        proof {
            assert(reply_views(replies@) =~= Seq::<ReplyView>::empty());
        }
        match decode_token(token) {
            None => {},
            Some(a) => {
                let ghost av = a@;
                match a.verb {
                    Verb::View => {
                        match self.store.read(&a.tag, &a.title) {
                            Ok(b) => {
                                let dt = encode_token(Verb::Delete, a.tag.as_str(), a.title.as_str());
                                let et = encode_token(Verb::Edit, a.tag.as_str(), a.title.as_str());
                                replies.push(
                                    Reply::ShowNote {
                                        tag: a.tag,
                                        title: a.title,
                                        body: b,
                                        delete_token: dt,
                                        edit_token: et,
                                    },
                                );
                                proof {
                                    assert(reply_views(replies@) =~= action_step(v0, token@).1);
                                }
                            },
                            Err(_) => {},
                        }
                    },
                    Verb::Delete => {
                        self.store.delete(&a.tag, &a.title);
                        replies.push(Reply::NoteDeleted);
                        proof {
                            assert(reply_views(replies@) =~= seq![ReplyView::NoteDeleted]);
                        }
                    },
                    Verb::Edit => {
                        let exists = match self.store.read(&a.tag, &a.title) {
                            Ok(_) => true,
                            Err(_) => false,
                        };
                        if exists {
                            proof {
                                let i = choose|i: int| key_at(v0.notes, av.tag, av.title, i);
                                assert(key_at(v0.notes, av.tag, av.title, i));
                                assert(valid_name(v0.notes[i].tag) && valid_name(
                                    v0.notes[i].title,
                                ));
                            }
                            self.slot = EditState::AwaitingText { tag: a.tag, title: a.title };
                            replies.push(Reply::EditPrompt);
                            proof {
                                assert(reply_views(replies@) =~= seq![ReplyView::EditPrompt]);
                            }
                        }
                    },
                }
            },
        }
        replies
    }
}

// ---------------------------------------------------------------------------
// Laws
// ---------------------------------------------------------------------------

/// One intent leaves an existing note's body alone and keeps the store
/// well-formed: a create can only append a different key, and nothing else
/// mutates the store.
proof fn lemma_apply_intent_preserves(
    notes: Seq<NoteView>,
    it: IntentView,
    tag: Seq<char>,
    title: Seq<char>,
)
    requires
        store_wf(notes),
        has_key(notes, tag, title),
    ensures
        ({
            let res = apply_intent(notes, it).0;
            store_wf(res) && has_key(res, tag, title) && body_of(res, tag, title) == body_of(
                notes,
                tag,
                title,
            )
        }),
{
    let res = apply_intent(notes, it).0;
    let i = key_index(notes, tag, title);
    assert(key_at(notes, tag, title, choose|j: int| key_at(notes, tag, title, j)));
    match it {
        IntentView::CreateNote { tag: t2, title: i2, body: b2 } => {
            if valid_name(t2) && valid_name(i2) && !has_key(notes, t2, i2) {
                let nv = NoteView { tag: t2, title: i2, body: b2 };
                assert(res == notes.push(nv));
                assert forall|a: int, b: int|
                    #![trigger res[a], res[b]]
                    0 <= a < b < res.len() implies !(res[a].tag == res[b].tag && res[a].title
                    == res[b].title) by {
                    if b == res.len() - 1 {
                        assert(!key_at(notes, nv.tag, nv.title, a));
                    }
                }
                assert(key_at(res, tag, title, i));
                lemma_key_unique(res, tag, title, i);
                lemma_key_unique(notes, tag, title, i);
            }
        },
        _ => {},
    }
}

/// A whole intent sequence leaves an existing note's body alone.
proof fn lemma_apply_intents_preserves(
    notes: Seq<NoteView>,
    its: Seq<IntentView>,
    tag: Seq<char>,
    title: Seq<char>,
)
    requires
        store_wf(notes),
        has_key(notes, tag, title),
    ensures
        ({
            let res = apply_intents(notes, its).0;
            store_wf(res) && has_key(res, tag, title) && body_of(res, tag, title) == body_of(
                notes,
                tag,
                title,
            )
        }),
    decreases its.len(),
{
    if its.len() > 0 {
        lemma_apply_intent_preserves(notes, its[0], tag, title);
        lemma_apply_intents_preserves(apply_intent(notes, its[0]).0, its.drop_first(), tag, title);
    }
}

/// Overwriting an existing key updates that note's body in place and keeps
/// the store well-formed.
proof fn lemma_overwrite_existing(
    notes: Seq<NoteView>,
    tag: Seq<char>,
    title: Seq<char>,
    body: Seq<char>,
)
    requires
        store_wf(notes),
        has_key(notes, tag, title),
    ensures
        ({
            let res = overwrite_spec(notes, tag, title, body);
            store_wf(res) && has_key(res, tag, title) && body_of(res, tag, title) == body
        }),
{
    let i = key_index(notes, tag, title);
    assert(key_at(notes, tag, title, choose|j: int| key_at(notes, tag, title, j)));
    let res = notes.update(i, NoteView { tag, title, body });
    assert forall|a: int, b: int|
        #![trigger res[a], res[b]]
        0 <= a < b < res.len() implies !(res[a].tag == res[b].tag && res[a].title == res[b].title)
        by {
        assert(!(notes[a].tag == notes[b].tag && notes[a].title == notes[b].title));
        if a == i {
            assert(res[a].tag == notes[i].tag && res[a].title == notes[i].title);
        }
        if b == i {
            assert(res[b].tag == notes[i].tag && res[b].title == notes[i].title);
        }
    }
    assert(key_at(res, tag, title, i));
    lemma_key_unique(res, tag, title, i);
}

/// Law: requesting an edit of an existing note puts exactly that note in the
/// slot; the next text event of any content becomes the note's body and
/// idles the slot; and a further text event of any content leaves that body
/// alone.
pub proof fn lemma_edit_flow(
    v: EngineView,
    tag: Seq<char>,
    title: Seq<char>,
    text2: Seq<char>,
    text3: Seq<char>,
)
    requires
        engine_wf(v),
        v.slot == Option::<(Seq<char>, Seq<char>)>::None,
        has_key(v.notes, tag, title),
        tag.len() > 0,
        tag[0] == '#',
    ensures
        ({
            let step1 = action_step(v, token_spec(Verb::Edit, tag, title));
            let step2 = text_step(step1.0, text2);
            let step3 = text_step(step2.0, text3);
            step1.0.slot == Option::Some((tag, title)) && step1.0.notes == v.notes && step1.1
                == seq![ReplyView::EditPrompt] && step2.0.slot == Option::<(
                Seq<char>,
                Seq<char>,
            )>::None && has_key(step2.0.notes, tag, title) && body_of(step2.0.notes, tag, title)
                == text2 && body_of(step3.0.notes, tag, title) == text2
        }),
{
    let i = key_index(v.notes, tag, title);
    assert(key_at(v.notes, tag, title, choose|j: int| key_at(v.notes, tag, title, j)));
    assert(valid_name(v.notes[i].tag) && valid_name(v.notes[i].title));
    crate::token::lemma_token_round_trip(Verb::Edit, tag, title);
    let step1 = action_step(v, token_spec(Verb::Edit, tag, title));
    assert(step1.0.slot == Option::Some((tag, title)));
    assert(step1.1 =~= seq![ReplyView::EditPrompt]);
    let mid = overwrite_spec(v.notes, tag, title, text2);
    lemma_overwrite_existing(v.notes, tag, title, text2);
    lemma_apply_intents_preserves(mid, classify_spec(text2), tag, title);
    let step2 = text_step(step1.0, text2);
    assert(step2.0.notes == apply_intents(mid, classify_spec(text2)).0);
    assert(body_of(step2.0.notes, tag, title) == text2);
    lemma_apply_intents_preserves(step2.0.notes, classify_spec(text3), tag, title);
}

} // verus!
