//! The command classifier: one inbound text block, split into trimmed lines,
//! becomes a sequence of intents. Three lines describe a creation; one line
//! starting with `#` lists a tag; a line holding a search marker starts a
//! title or content search, scoped by a leading `#` line when present. Both
//! searches fire when both markers occur. A two- or three-line block of any
//! other shape is malformed; any other line count asks for nothing.

use vstd::prelude::*;
use vstd::string::*;
use crate::text::{
    is_substr, is_substr_at, find_first, find_first_pair, chars_vec, contains_chars, split_lines,
    split_lines_str, trim_spec, trim_str,
};

verus! {

/// One classified intent.
#[derive(Debug, PartialEq)]
pub enum Intent {
    CreateNote { tag: String, title: String, body: String },
    ListByTag { tag: String },
    SearchTitle { tag: Option<String>, phrase: String },
    SearchContent { tag: Option<String>, phrase: String },
    Malformed,
}

/// The mathematical content of an intent.
pub ghost enum IntentView {
    CreateNote { tag: Seq<char>, title: Seq<char>, body: Seq<char> },
    ListByTag { tag: Seq<char> },
    SearchTitle { tag: Option<Seq<char>>, phrase: Seq<char> },
    SearchContent { tag: Option<Seq<char>>, phrase: Seq<char> },
    Malformed,
}

impl View for Intent {
    type V = IntentView;

    open spec fn view(&self) -> IntentView {
        match self {
            Intent::CreateNote { tag, title, body } => IntentView::CreateNote {
                tag: tag@,
                title: title@,
                body: body@,
            },
            Intent::ListByTag { tag } => IntentView::ListByTag { tag: tag@ },
            Intent::SearchTitle { tag, phrase } => IntentView::SearchTitle {
                tag: tag.deep_view(),
                phrase: phrase@,
            },
            Intent::SearchContent { tag, phrase } => IntentView::SearchContent {
                tag: tag.deep_view(),
                phrase: phrase@,
            },
            Intent::Malformed => IntentView::Malformed,
        }
    }
}

/// The views of a sequence of intents.
pub open spec fn intent_views(v: Seq<Intent>) -> Seq<IntentView> {
    v.map_values(|it: Intent| it@)
}

pub open spec fn title_marker() -> Seq<char> {
    "Заголовок:"@
}

pub open spec fn title_marker_lc() -> Seq<char> {
    "заголовок:"@
}

pub open spec fn phrase_marker() -> Seq<char> {
    "Фраза:"@
}

pub open spec fn phrase_marker_lc() -> Seq<char> {
    "фраза:"@
}

/// The line begins with the tag marker.
pub open spec fn starts_hash(l: Seq<char>) -> bool {
    l.len() > 0 && l[0] == '#'
}

/// The line holds the title-search marker, as written or lowercased.
pub open spec fn has_title_marker(l: Seq<char>) -> bool {
    is_substr(l, title_marker()) || is_substr(l, title_marker_lc())
}

/// The line holds the content-search marker, as written or lowercased.
pub open spec fn has_phrase_marker(l: Seq<char>) -> bool {
    is_substr(l, phrase_marker()) || is_substr(l, phrase_marker_lc())
}

/// What stands after the first occurrence of either marker, trimmed.
pub open spec fn search_phrase(l: Seq<char>, m1: Seq<char>, m2: Seq<char>) -> Seq<char> {
    let p = find_first(l, m1, m2);
    if p + m1.len() <= l.len() {
        trim_spec(l.subrange(p + m1.len() as int, l.len() as int))
    } else {
        Seq::<char>::empty()
    }
}

pub open spec fn title_phrase(l: Seq<char>) -> Seq<char> {
    search_phrase(l, title_marker(), title_marker_lc())
}

pub open spec fn content_phrase(l: Seq<char>) -> Seq<char> {
    search_phrase(l, phrase_marker(), phrase_marker_lc())
}

/// The UTF-8 encoded length of one character.
pub open spec fn utf8_len_char(c: char) -> nat {
    if (c as u32) < 0x80 {
        1
    } else if (c as u32) < 0x800 {
        2
    } else if (c as u32) < 0x10000 {
        3
    } else {
        4
    }
}

/// The UTF-8 encoded length of a character sequence.
pub open spec fn byte_len(s: Seq<char>) -> nat
    decreases s.len(),
{
    if s.len() == 0 {
        0
    } else {
        utf8_len_char(s[0]) + byte_len(s.drop_first())
    }
}

/// Computes the UTF-8 encoded length.
fn byte_len_exec(v: &Vec<char>) -> (r: u128)
    ensures
        r == byte_len(v@),
        r <= 4 * v@.len(),
    decreases v@.len(),
{
    let n = v.len();
    let mut r: u128 = 0;
    let mut i: usize = 0;
    proof {
        assert(v@.skip(0) =~= v@);
    }
    while i < n
        invariant
            i <= n,
            n == v@.len(),
            r + byte_len(v@.skip(i as int)) == byte_len(v@),
            r <= 4 * i,
        decreases n - i,
    {
        let c = v[i];
        let u = c as u32;
        let step: u128 = if u < 0x80 {
            1
        } else if u < 0x800 {
            2
        } else if u < 0x10000 {
            3
        } else {
            4
        };
        proof {
            assert(v@.skip(i as int).drop_first() =~= v@.skip(i + 1));
            assert(v@.skip(i as int)[0] == v@[i as int]);
            assert(step == utf8_len_char(v@[i as int]));
            assert(byte_len(v@.skip(i as int)) == utf8_len_char(v@[i as int]) + byte_len(
                v@.skip(i + 1),
            ));
        }
        r = r + step;
        i += 1;
    }
    proof {
        assert(v@.skip(n as int) =~= Seq::<char>::empty());
        assert(byte_len(v@.skip(n as int)) == 0);
    }
    r
}

/// The intents of a block already split into trimmed lines.
pub open spec fn classify_lines(lines: Seq<Seq<char>>) -> Seq<IntentView> {
    if lines.len() == 3 {
        let tag = lines[0];
        let title = lines[1];
        let body = lines[2];
        if !(starts_hash(tag) && title.len() > 0 && body.len() > 0) {
            seq![IntentView::Malformed]
        } else if byte_len(tag) + byte_len(title) > 64 {
            seq![IntentView::Malformed]
        } else if byte_len(body) > 4000 {
            seq![IntentView::Malformed]
        } else {
            seq![IntentView::CreateNote { tag, title, body }]
        }
    } else if lines.len() == 2 {
        let tag = lines[0];
        let l = lines[1];
        if starts_hash(tag) && l.len() > 0 && (has_title_marker(l) || has_phrase_marker(l)) {
            (if has_title_marker(l) {
                seq![
                    IntentView::SearchTitle {
                        tag: Option::Some(tag),
                        phrase: title_phrase(l),
                    },
                ]
            } else {
                Seq::<IntentView>::empty()
            }) + (if has_phrase_marker(l) {
                seq![
                    IntentView::SearchContent {
                        tag: Option::Some(tag),
                        phrase: content_phrase(l),
                    },
                ]
            } else {
                Seq::<IntentView>::empty()
            })
        } else {
            seq![IntentView::Malformed]
        }
    } else if lines.len() == 1 {
        let l = lines[0];
        (if starts_hash(l) {
            seq![IntentView::ListByTag { tag: l }]
        } else {
            Seq::<IntentView>::empty()
        }) + (if has_title_marker(l) {
            seq![IntentView::SearchTitle { tag: Option::None, phrase: title_phrase(l) }]
        } else {
            Seq::<IntentView>::empty()
        }) + (if has_phrase_marker(l) {
            seq![IntentView::SearchContent { tag: Option::None, phrase: content_phrase(l) }]
        } else {
            Seq::<IntentView>::empty()
        })
    } else {
        Seq::<IntentView>::empty()
    }
}

/// The trimmed lines of a text block.
pub open spec fn trim_all(v: Seq<Seq<char>>) -> Seq<Seq<char>> {
    v.map_values(|l: Seq<char>| trim_spec(l))
}

pub open spec fn msg_lines(text: Seq<char>) -> Seq<Seq<char>> {
    trim_all(split_lines(text))
}

/// The intents of one inbound text block.
pub open spec fn classify_spec(text: Seq<char>) -> Seq<IntentView> {
    classify_lines(msg_lines(text))
}

fn starts_hash_exec(s: &str) -> (r: bool)
    ensures
        r == starts_hash(s@),
{
    if s.unicode_len() == 0 {
        false
    } else {
        s.get_char(0) == '#'
    }
}

/// Extracts and trims what stands after the first marker occurrence.
fn extract_phrase(l: &str, m1: &Vec<char>, m2: &Vec<char>) -> (ph: String)
    requires
        m1@.len() > 0,
        m2@.len() == m1@.len(),
    ensures
        ph@ == search_phrase(l@, m1@, m2@),
{
    let lv = chars_vec(l);
    let n = lv.len();
    let p = find_first_pair(&lv, m1, m2);
    if m1.len() <= n - p && p < n {
        let tail = l.substring_char(p + m1.len(), n);
        proof {
            assert(tail@ == l@.subrange(p + m1@.len() as int, l@.len() as int));
        }
        String::from_str(trim_str(tail))
    } else {
        proof {
            if p < n {
                assert(is_substr_at(l@, m1@, p as int) || is_substr_at(l@, m2@, p as int));
            }
        }
        String::new()
    }
}

/// Classifies one inbound text block, as `classify_spec` says.
pub fn classify(text: &str) -> (r: Vec<Intent>)
    ensures
        intent_views(r@) == classify_spec(text@),
{
    let raw = split_lines_str(text);
    let ghost rawv = split_lines(text@);
    let n = raw.len();
    let mut lines: Vec<String> = Vec::new();
    let mut i: usize = 0;
    proof {
        assert(raw.deep_view().len() == rawv.len());
        assert(lines.deep_view() =~= trim_all(rawv.subrange(0, 0)));
    }
    while i < n
        invariant
            i <= n,
            n == raw@.len(),
            raw.deep_view() == rawv,
            lines.deep_view() == trim_all(rawv.subrange(0, i as int)),
        decreases n - i,
    {
        let ghost prevl = lines@;
        let t = String::from_str(trim_str(raw[i].as_str()));
        lines.push(t);
        proof {
            assert(raw@[i as int]@ == rawv[i as int]);
            assert(lines@[lines@.len() - 1]@ == trim_spec(rawv[i as int]));
            assert(trim_all(rawv.subrange(0, i as int)).len() == i as int);
            assert(prevl.len() == i as int);
            assert forall|k: int| 0 <= k < i implies lines.deep_view()[k] == trim_all(
                rawv.subrange(0, i as int),
            )[k] by {
                assert(lines@[k] == prevl[k]);
            }
            assert(lines.deep_view() =~= trim_all(rawv.subrange(0, i + 1)));
        }
        i += 1;
    }
    proof {
        assert(rawv.subrange(0, n as int) =~= rawv);
        assert(lines.deep_view() == msg_lines(text@));
    }
    let ghost lv = msg_lines(text@);
    let mut out: Vec<Intent> = Vec::new();
    if lines.len() == 3 {
        let shape_ok = starts_hash_exec(lines[0].as_str()) && !lines[1].as_str().is_empty()
            && !lines[2].as_str().is_empty();
        proof {
            assert(lines@[0]@ == lv[0]);
            assert(lines@[1]@ == lv[1]);
            assert(lines@[2]@ == lv[2]);
        }
        if !shape_ok {
            out.push(Intent::Malformed);
        } else {
            let tv = chars_vec(lines[0].as_str());
            let iv = chars_vec(lines[1].as_str());
            let bv = chars_vec(lines[2].as_str());
            let tl = byte_len_exec(&tv);
            let il = byte_len_exec(&iv);
            let bl = byte_len_exec(&bv);
            proof {
                assert(tl == byte_len(lv[0]));
                assert(il == byte_len(lv[1]));
                assert(bl == byte_len(lv[2]));
            }
            if tl > 64 || il > 64 - tl {
                out.push(Intent::Malformed);
            } else if bl > 4000 {
                out.push(Intent::Malformed);
            } else {
                out.push(
                    Intent::CreateNote {
                        tag: lines[0].clone(),
                        title: lines[1].clone(),
                        body: lines[2].clone(),
                    },
                );
            }
        }
        proof {
            assert(intent_views(out@) =~= classify_lines(lv));
        }
    } else if lines.len() == 2 {
        let tm = chars_vec("Заголовок:");
        let tml = chars_vec("заголовок:");
        let pm = chars_vec("Фраза:");
        let pml = chars_vec("фраза:");
        proof {
            reveal_strlit("Заголовок:");
            reveal_strlit("заголовок:");
            reveal_strlit("Фраза:");
            reveal_strlit("фраза:");
            assert(tm@.len() == 10 && tml@.len() == 10 && pm@.len() == 6 && pml@.len() == 6);
            assert(lines@[0]@ == lv[0]);
            assert(lines@[1]@ == lv[1]);
        }
        let lchars = chars_vec(lines[1].as_str());
        let has_t = contains_chars(&lchars, &tm) || contains_chars(&lchars, &tml);
        let has_p = contains_chars(&lchars, &pm) || contains_chars(&lchars, &pml);
        if starts_hash_exec(lines[0].as_str()) && !lines[1].as_str().is_empty() && (has_t
            || has_p) {
            if has_t {
                let ph = extract_phrase(lines[1].as_str(), &tm, &tml);
                out.push(Intent::SearchTitle { tag: Some(lines[0].clone()), phrase: ph });
            }
            if has_p {
                let ph = extract_phrase(lines[1].as_str(), &pm, &pml);
                out.push(Intent::SearchContent { tag: Some(lines[0].clone()), phrase: ph });
            }
        } else {
            out.push(Intent::Malformed);
        }
        proof {
            assert(intent_views(out@) =~= classify_lines(lv));
        }
    } else if lines.len() == 1 {
        let tm = chars_vec("Заголовок:");
        let tml = chars_vec("заголовок:");
        let pm = chars_vec("Фраза:");
        let pml = chars_vec("фраза:");
        proof {
            reveal_strlit("Заголовок:");
            reveal_strlit("заголовок:");
            reveal_strlit("Фраза:");
            reveal_strlit("фраза:");
            assert(tm@.len() == 10 && tml@.len() == 10 && pm@.len() == 6 && pml@.len() == 6);
            assert(lines@[0]@ == lv[0]);
        }
        let lchars = chars_vec(lines[0].as_str());
        let has_t = contains_chars(&lchars, &tm) || contains_chars(&lchars, &tml);
        let has_p = contains_chars(&lchars, &pm) || contains_chars(&lchars, &pml);
        if starts_hash_exec(lines[0].as_str()) {
            out.push(Intent::ListByTag { tag: lines[0].clone() });
        }
        if has_t {
            let ph = extract_phrase(lines[0].as_str(), &tm, &tml);
            out.push(Intent::SearchTitle { tag: None, phrase: ph });
        }
        if has_p {
            let ph = extract_phrase(lines[0].as_str(), &pm, &pml);
            out.push(Intent::SearchContent { tag: None, phrase: ph });
        }
        proof {
            assert(intent_views(out@) =~= classify_lines(lv));
        }
    } else {
        proof {
            assert(intent_views(out@) =~= classify_lines(lv));
        }
    }
    out
}

} // verus!
