//! The action-token protocol: a view, delete, or edit action on one note is
//! carried as a string `tag/title`, prefixed with `d` for delete or `w` for
//! edit. A token is dispatched by its first byte; a token without a verb
//! prefix is a view only when it holds a tag marker `#` and the separator.

use vstd::prelude::*;
use vstd::string::*;
use crate::text::{
    valid_name, is_invalid_char, is_substr, is_substr_at, find_first, lemma_find_first,
    lemma_single_at, push_char,
};

verus! {

/// The three actions a token can carry.
#[derive(Clone, Copy, Debug, PartialEq, Eq)]
pub enum Verb {
    View,
    Delete,
    Edit,
}

/// A decoded action.
#[derive(Debug, PartialEq)]
pub struct Action {
    pub verb: Verb,
    pub tag: String,
    pub title: String,
}

/// The mathematical content of an action.
pub ghost struct ActionView {
    pub verb: Verb,
    pub tag: Seq<char>,
    pub title: Seq<char>,
}

impl View for Action {
    type V = ActionView;

    open spec fn view(&self) -> ActionView {
        ActionView { verb: self.verb, tag: self.tag@, title: self.title@ }
    }
}

pub open spec fn slash_seq() -> Seq<char> {
    seq!['/']
}

pub open spec fn verb_prefix(v: Verb) -> Seq<char> {
    match v {
        Verb::View => Seq::<char>::empty(),
        Verb::Delete => seq!['d'],
        Verb::Edit => seq!['w'],
    }
}

/// The token for an action on the note (tag, title).
pub open spec fn token_spec(v: Verb, tag: Seq<char>, title: Seq<char>) -> Seq<char> {
    verb_prefix(v) + tag + seq!['/'] + title
}

/// The parts before and after the first separator, if one occurs.
pub open spec fn split_at_slash(t: Seq<char>) -> Option<(Seq<char>, Seq<char>)> {
    let p = find_first(t, slash_seq(), slash_seq());
    if 0 <= p < t.len() {
        Option::Some((t.subrange(0, p), t.subrange(p + 1, t.len() as int)))
    } else {
        Option::None
    }
}

/// What a token resolves to: dispatch on the first byte, then split at the
/// first separator; an unprefixed token is a view only when it holds a `#`.
pub open spec fn decode_spec(t: Seq<char>) -> Option<ActionView> {
    if t.len() == 0 {
        Option::None
    } else if t[0] == 'd' {
        match split_at_slash(t.drop_first()) {
            Option::Some(p) => Option::Some(ActionView { verb: Verb::Delete, tag: p.0, title: p.1 }),
            Option::None => Option::None,
        }
    } else if t[0] == 'w' {
        match split_at_slash(t.drop_first()) {
            Option::Some(p) => Option::Some(ActionView { verb: Verb::Edit, tag: p.0, title: p.1 }),
            Option::None => Option::None,
        }
    } else if is_substr(t, seq!['#']) {
        match split_at_slash(t) {
            Option::Some(p) => Option::Some(ActionView { verb: Verb::View, tag: p.0, title: p.1 }),
            Option::None => Option::None,
        }
    } else {
        Option::None
    }
}

/// Builds the token for an action on the note (tag, title).
pub fn encode_token(verb: Verb, tag: &str, title: &str) -> (r: String)
    ensures
        r@ == token_spec(verb, tag@, title@),
{
    let mut s = String::new();
    match verb {
        Verb::View => {},
        Verb::Delete => push_char(&mut s, 'd'),
        Verb::Edit => push_char(&mut s, 'w'),
    }
    s.append(tag);
    push_char(&mut s, '/');
    s.append(title);
    proof {
        assert(s@ =~= token_spec(verb, tag@, title@));
    }
    s
}

/// Splits at the first `/`, as `split_at_slash` says.
fn split_at_slash_exec(s: &str) -> (r: Option<(String, String)>)
    ensures
        match (r, split_at_slash(s@)) {
            (Option::Some(p), Option::Some(q)) => p.0@ == q.0 && p.1@ == q.1,
            (Option::None, Option::None) => true,
            _ => false,
        },
{
    let n = s.unicode_len();
    let mut i: usize = 0;
    while i < n && s.get_char(i) != '/'
        invariant
            i <= n,
            n == s@.len(),
            forall|k: int| 0 <= k < i ==> s@[k] != '/',
        decreases n - i,
    {
        i += 1;
    }
    proof {
        assert forall|k: int| 0 <= k < i implies !is_substr_at(s@, slash_seq(), k) by {
            lemma_single_at(s@, '/', k);
        }
        if i < n {
            lemma_single_at(s@, '/', i as int);
        }
        lemma_find_first(s@, slash_seq(), slash_seq(), i as int);
    }
    if i < n {
        let left = s.substring_char(0, i);
        let right = s.substring_char(i + 1, n);
        Some((String::from_str(left), String::from_str(right)))
    } else {
        None
    }
}

/// Reports whether the string holds a `#`.
fn has_hash(s: &str) -> (r: bool)
    ensures
        r == is_substr(s@, seq!['#']),
{
    let n = s.unicode_len();
    let mut i: usize = 0;
    while i < n
        invariant
            i <= n,
            n == s@.len(),
            forall|k: int| 0 <= k < i ==> s@[k] != '#',
        decreases n - i,
    {
        if s.get_char(i) == '#' {
            proof {
                lemma_single_at(s@, '#', i as int);
            }
            return true;
        }
        i += 1;
    }
    proof {
        assert forall|k: int| !is_substr_at(s@, seq!['#'], k) by {
            lemma_single_at(s@, '#', k);
        }
    }
    false
}

/// Decodes a token, as `decode_spec` says; garbage decodes to nothing.
pub fn decode_token(token: &str) -> (r: Option<Action>)
    ensures
        match (r, decode_spec(token@)) {
            (Option::Some(a), Option::Some(v)) => a@ == v,
            (Option::None, Option::None) => true,
            _ => false,
        },
{
    let n = token.unicode_len();
    if n == 0 {
        return None;
    }
    let c0 = token.get_char(0);
    if c0 == 'd' || c0 == 'w' {
        let rest = token.substring_char(1, n);
        proof {
            assert(rest@ =~= token@.drop_first());
        }
        match split_at_slash_exec(rest) {
            Some(p) => {
                let verb = if c0 == 'd' {
                    Verb::Delete
                } else {
                    Verb::Edit
                };
                Some(Action { verb, tag: p.0, title: p.1 })
            },
            None => None,
        }
    } else if has_hash(token) {
        match split_at_slash_exec(token) {
            Some(p) => Some(Action { verb: Verb::View, tag: p.0, title: p.1 }),
            None => None,
        }
    } else {
        None
    }
}

// ---------------------------------------------------------------------------
// Laws
// ---------------------------------------------------------------------------

/// In `a + / + b` with no separator in `a`, the first separator is the one
/// between the parts.
proof fn lemma_slash_split(a: Seq<char>, b: Seq<char>)
    requires
        forall|k: int| 0 <= k < a.len() ==> a[k] != '/',
    ensures
        split_at_slash(a + seq!['/'] + b) == Option::Some((a, b)),
{
    let t = a + seq!['/'] + b;
    assert(t.len() == a.len() + 1 + b.len());
    assert forall|k: int| 0 <= k < a.len() implies !is_substr_at(t, slash_seq(), k) by {
        lemma_single_at(t, '/', k);
        assert(t[k] == a[k]);
    }
    assert(t[a.len() as int] == '/');
    lemma_single_at(t, '/', a.len() as int);
    lemma_find_first(t, slash_seq(), slash_seq(), a.len() as int);
    assert(t.subrange(0, a.len() as int) =~= a);
    assert(t.subrange(a.len() as int + 1, t.len() as int) =~= b);
}

/// Law: a token encoded for a note decodes to exactly that note's key and
/// the same verb, for every valid tag that starts with the tag marker.
pub proof fn lemma_token_round_trip(verb: Verb, tag: Seq<char>, title: Seq<char>)
    requires
        valid_name(tag),
        valid_name(title),
        tag.len() > 0,
        tag[0] == '#',
    ensures
        decode_spec(token_spec(verb, tag, title)) == Option::Some(
            ActionView { verb, tag, title },
        ),
{
    let t = token_spec(verb, tag, title);
    assert forall|k: int| 0 <= k < tag.len() implies tag[k] != '/' by {
        assert(!is_invalid_char(tag[k]));
    }
    match verb {
        Verb::View => {
            assert(t =~= tag + seq!['/'] + title);
            assert(t[0] == tag[0]);
            assert(t[0] != 'd' && t[0] != 'w');
            assert(t.subrange(0, 1) =~= seq!['#']);
            assert(is_substr_at(t, seq!['#'], 0));
            lemma_slash_split(tag, title);
        },
        Verb::Delete => {
            assert(t[0] == 'd');
            assert(t.drop_first() =~= tag + seq!['/'] + title);
            lemma_slash_split(tag, title);
        },
        Verb::Edit => {
            assert(t[0] == 'w');
            assert(t.drop_first() =~= tag + seq!['/'] + title);
            lemma_slash_split(tag, title);
        },
    }
}

} // verus!
