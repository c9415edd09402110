//! The search engine: three strategies over the note store, all
//! case-insensitive. Tag listing takes every note under a tag; title search
//! keeps the notes whose folded title holds the folded query as a substring;
//! content search keeps the notes of which some body line does. A search may
//! be scoped to one tag or run over the whole store.

use vstd::prelude::*;
use crate::store::{Note, NoteView, NoteStore, note_views};
use crate::text::{
    is_substr, is_substr_at, lower_of, lower_str, chars_vec, split_lines, split_lines_str,
    contains_chars,
};

verus! {

/// The note is inside the scope: under the given tag, or anywhere when no
/// tag is given.
pub open spec fn scope_ok(scope: Option<Seq<char>>, m: NoteView) -> bool {
    match scope {
        Option::None => true,
        Option::Some(t) => m.tag == t,
    }
}

/// Title search keeps a note when it is in scope and its folded title holds
/// the folded query.
pub open spec fn title_pred(scope: Option<Seq<char>>, q: Seq<char>) -> spec_fn(NoteView) -> bool {
    |m: NoteView| scope_ok(scope, m) && is_substr(lower_of(m.title), q)
}

/// Some line of the body, folded, holds the query.
pub open spec fn body_matches(body: Seq<char>, q: Seq<char>) -> bool {
    exists|i: int|
        0 <= i < split_lines(body).len() && is_substr(lower_of(#[trigger] split_lines(body)[i]), q)
}

/// The notes in scope, regardless of any query.
pub open spec fn scope_pred(scope: Option<Seq<char>>) -> spec_fn(NoteView) -> bool {
    |m: NoteView| scope_ok(scope, m)
}

/// Content search keeps a note when it is in scope and some line of its
/// folded body holds the folded query.
pub open spec fn content_pred(scope: Option<Seq<char>>, q: Seq<char>) -> spec_fn(
    NoteView,
) -> bool {
    |m: NoteView| scope_ok(scope, m) && body_matches(m.body, q)
}

/// Predicates that agree on every element filter alike.
proof fn lemma_filter_same(
    s: Seq<NoteView>,
    p: spec_fn(NoteView) -> bool,
    q: spec_fn(NoteView) -> bool,
)
    requires
        forall|i: int| 0 <= i < s.len() ==> p(s[i]) == q(s[i]),
    ensures
        s.filter(p) == s.filter(q),
    decreases s.len(),
{
    reveal(Seq::filter);
    if s.len() > 0 {
        assert(forall|i: int| 0 <= i < s.drop_last().len() ==> s.drop_last()[i] == s[i]);
        lemma_filter_same(s.drop_last(), p, q);
    }
}

/// The folded title holds the (already folded) query.
fn title_has(title: &str, qv: &Vec<char>) -> (r: bool)
    ensures
        r == is_substr(lower_of(title@), qv@),
{
    let folded = lower_str(title);
    let fv = chars_vec(folded.as_str());
    contains_chars(&fv, qv)
}

/// Some line of the body, folded, holds the (already folded) query.
fn body_has(body: &str, qv: &Vec<char>) -> (r: bool)
    ensures
        r == body_matches(body@, qv@),
{
    let lines = split_lines_str(body);
    let n = lines.len();
    let mut k: usize = 0;
    while k < n
        invariant
            k <= n,
            n == lines@.len(),
            lines.deep_view() == split_lines(body@),
            forall|j: int|
                0 <= j < k ==> !is_substr(lower_of(#[trigger] split_lines(body@)[j]), qv@),
        decreases n - k,
    {
        let folded = lower_str(lines[k].as_str());
        let fv = chars_vec(folded.as_str());
        proof {
            assert(lines@[k as int]@ == split_lines(body@)[k as int]);
        }
        if contains_chars(&fv, qv) {
            return true;
        }
        k += 1;
    }
    false
}

/// The scope admits the note.
fn in_scope(scope: &Option<String>, note: &Note) -> (r: bool)
    ensures
        r == scope_ok(scope.deep_view(), note@),
{
    match scope {
        Option::None => true,
        Option::Some(t) => note.tag == *t,
    }
}

/// Title search: the notes in scope whose title, case-folded, holds the
/// case-folded phrase as a substring, in enumeration order.
pub fn search_title(store: &NoteStore, scope: &Option<String>, phrase: &str) -> (r: Vec<Note>)
    ensures
        note_views(r@) == store@.filter(title_pred(scope.deep_view(), lower_of(phrase@))),
        phrase@.len() == 0 ==> note_views(r@) == store@.filter(scope_pred(scope.deep_view())),
{
    let q = lower_str(phrase);
    let qv = chars_vec(q.as_str());
    let all = store.list_all();
    let ghost s = store@;
    let ghost pred = title_pred(scope.deep_view(), lower_of(phrase@));
    let n = all.len();
    let mut out: Vec<Note> = Vec::new();
    let mut i: usize = 0;
    proof {
        reveal(Seq::filter);
        assert(note_views(out@) =~= s.subrange(0, 0).filter(pred));
    }
    while i < n
        invariant
            i <= n,
            n == all@.len(),
            note_views(all@) == s,
            s == store@,
            qv@ == lower_of(phrase@),
            pred == title_pred(scope.deep_view(), lower_of(phrase@)),
            note_views(out@) == s.subrange(0, i as int).filter(pred),
        decreases n - i,
    {
        let ghost prefix = s.subrange(0, i as int);
        let ghost prefix2 = s.subrange(0, i + 1);
        proof {
            reveal(Seq::filter);
            assert(prefix2.drop_last() =~= prefix);
            assert(prefix2.last() == s[i as int]);
            assert(all@[i as int]@ == s[i as int]);
        }
        let nt = &all[i];
        let keep = if in_scope(scope, nt) {
            title_has(nt.title.as_str(), &qv)
        } else {
            false
        };
        if keep {
            let ghost prev = out@;
            out.push(Note { tag: nt.tag.clone(), title: nt.title.clone(), body: nt.body.clone() });
            proof {
                reveal(Seq::filter);
                assert(pred(s[i as int]));
                assert(prefix2.filter(pred) == prefix.filter(pred).push(s[i as int]));
                assert(out@[out@.len() - 1]@ == s[i as int]);
                assert(note_views(out@) =~= note_views(prev).push(s[i as int]));
            }
        } else {
            proof {
                reveal(Seq::filter);
                assert(!pred(s[i as int]));
                assert(prefix2.filter(pred) == prefix.filter(pred));
            }
        }
        i += 1;
    }
    proof {
        assert(s.subrange(0, n as int) =~= s);
        if phrase@.len() == 0 {
            assert(lower_of(phrase@).len() == 0);
            assert forall|i: int| 0 <= i < s.len() implies pred(s[i]) == scope_pred(
                scope.deep_view(),
            )(s[i]) by {
                let folded = lower_of(s[i].title);
                assert(folded.subrange(0, 0) =~= lower_of(phrase@));
                assert(is_substr_at(folded, lower_of(phrase@), 0));
            }
            lemma_filter_same(s, pred, scope_pred(scope.deep_view()));
        }
    }
    out
}

/// Content search: the notes in scope of which some body line, case-folded,
/// holds the case-folded phrase as a substring, in enumeration order.
pub fn search_content(store: &NoteStore, scope: &Option<String>, phrase: &str) -> (r: Vec<Note>)
    ensures
        note_views(r@) == store@.filter(content_pred(scope.deep_view(), lower_of(phrase@))),
        phrase@.len() == 0 ==> note_views(r@) == store@.filter(scope_pred(scope.deep_view())),
{
    let q = lower_str(phrase);
    let qv = chars_vec(q.as_str());
    let all = store.list_all();
    let ghost s = store@;
    let ghost pred = content_pred(scope.deep_view(), lower_of(phrase@));
    let n = all.len();
    let mut out: Vec<Note> = Vec::new();
    let mut i: usize = 0;
    proof {
        reveal(Seq::filter);
        assert(note_views(out@) =~= s.subrange(0, 0).filter(pred));
    }
    while i < n
        invariant
            i <= n,
            n == all@.len(),
            note_views(all@) == s,
            s == store@,
            qv@ == lower_of(phrase@),
            pred == content_pred(scope.deep_view(), lower_of(phrase@)),
            note_views(out@) == s.subrange(0, i as int).filter(pred),
        decreases n - i,
    {
        let ghost prefix = s.subrange(0, i as int);
        let ghost prefix2 = s.subrange(0, i + 1);
        proof {
            reveal(Seq::filter);
            assert(prefix2.drop_last() =~= prefix);
            assert(prefix2.last() == s[i as int]);
            assert(all@[i as int]@ == s[i as int]);
        }
        let nt = &all[i];
        let keep = if in_scope(scope, nt) {
            body_has(nt.body.as_str(), &qv)
        } else {
            false
        };
        if keep {
            let ghost prev = out@;
            out.push(Note { tag: nt.tag.clone(), title: nt.title.clone(), body: nt.body.clone() });
            proof {
                reveal(Seq::filter);
                assert(pred(s[i as int]));
                assert(prefix2.filter(pred) == prefix.filter(pred).push(s[i as int]));
                assert(out@[out@.len() - 1]@ == s[i as int]);
                assert(note_views(out@) =~= note_views(prev).push(s[i as int]));
            }
        } else {
            proof {
                reveal(Seq::filter);
                assert(!pred(s[i as int]));
                assert(prefix2.filter(pred) == prefix.filter(pred));
            }
        }
        i += 1;
    }
    proof {
        assert(s.subrange(0, n as int) =~= s);
        if phrase@.len() == 0 {
            assert(lower_of(phrase@).len() == 0);
            assert forall|i: int| 0 <= i < s.len() implies pred(s[i]) == scope_pred(
                scope.deep_view(),
            )(s[i]) by {
                if scope_ok(scope.deep_view(), s[i]) {
                    let body = s[i].body;
                    let line0 = split_lines(body)[0];
                    assert(split_lines(body).len() > 0);
                    assert(lower_of(line0).subrange(0, 0) =~= lower_of(phrase@));
                    assert(is_substr_at(lower_of(line0), lower_of(phrase@), 0));
                    assert(body_matches(body, lower_of(phrase@)));
                }
            }
            lemma_filter_same(s, pred, scope_pred(scope.deep_view()));
        }
    }
    out
}

} // verus!
