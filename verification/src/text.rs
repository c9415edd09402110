//! Character-level building blocks: whitespace trimming, line splitting,
//! substring search, case folding, and the invalid-character test shared by
//! tags and titles.

use vstd::prelude::*;
use vstd::string::*;

verus! {

// ---------------------------------------------------------------------------
// Whitespace
// ---------------------------------------------------------------------------

/// The Unicode `White_Space` characters, as documented for
/// `char::is_whitespace`.
pub open spec fn is_ws_char(c: char) -> bool {
    c == ' ' || c == '\t' || c == '\n' || c == '\r'
        || c == '\u{000B}' || c == '\u{000C}' || c == '\u{0085}'
        || c == '\u{00A0}' || c == '\u{1680}'
        || (0x2000 <= c as u32 && c as u32 <= 0x200A)
        || c == '\u{2028}' || c == '\u{2029}' || c == '\u{202F}'
        || c == '\u{205F}' || c == '\u{3000}'
}

pub fn is_ws(c: char) -> (r: bool)
    ensures
        r == is_ws_char(c),
{
    c == ' ' || c == '\t' || c == '\n' || c == '\r'
        || c == '\u{000B}' || c == '\u{000C}' || c == '\u{0085}'
        || c == '\u{00A0}' || c == '\u{1680}'
        || (0x2000 <= c as u32 && c as u32 <= 0x200A)
        || c == '\u{2028}' || c == '\u{2029}' || c == '\u{202F}'
        || c == '\u{205F}' || c == '\u{3000}'
}

// ---------------------------------------------------------------------------
// Invalid name characters
// ---------------------------------------------------------------------------

/// Characters that may not appear in a tag or a title.
pub open spec fn is_invalid_char(c: char) -> bool {
    c == '\\' || c == '/' || c == ':' || c == '*' || c == '?' || c == '"'
        || c == '<' || c == '>' || c == '|'
}

pub open spec fn has_invalid_chars(s: Seq<char>) -> bool {
    exists|i: int| 0 <= i < s.len() && is_invalid_char(s[i])
}

/// A tag or title is a valid name when it holds none of the reserved
/// characters.
pub open spec fn valid_name(s: Seq<char>) -> bool {
    !has_invalid_chars(s)
}

/// Reports whether `s` holds any character of the reserved set.
pub fn contains_invalid_chars(s: &str) -> (r: bool)
    ensures
        r == has_invalid_chars(s@),
{
    let n = s.unicode_len();
    let mut i: usize = 0;
    while i < n
        invariant
            i <= n,
            n == s@.len(),
            forall|k: int| 0 <= k < i ==> !is_invalid_char(s@[k]),
        decreases n - i,
    {
        let c = s.get_char(i);
        if c == '\\' || c == '/' || c == ':' || c == '*' || c == '?' || c == '"'
            || c == '<' || c == '>' || c == '|'
        {
            return true;
        }
        i += 1;
    }
    false
}

// ---------------------------------------------------------------------------
// Chars of a string as a vector
// ---------------------------------------------------------------------------

/// The characters of `s`, in order, as a vector.
pub fn chars_vec(s: &str) -> (v: Vec<char>)
    ensures
        v@ == s@,
{
    let n = s.unicode_len();
    let mut v: Vec<char> = Vec::new();
    let mut i: usize = 0;
    while i < n
        invariant
            i <= n,
            n == s@.len(),
            v@ == s@.subrange(0, i as int),
        decreases n - i,
    {
        v.push(s.get_char(i));
        i += 1;
        assert(v@ =~= s@.subrange(0, i as int));
    }
    assert(s@.subrange(0, n as int) =~= s@);
    v
}

// ---------------------------------------------------------------------------
// Substring search
// ---------------------------------------------------------------------------

/// `needle` occurs in `hay` starting at position `i`.
pub open spec fn is_substr_at(hay: Seq<char>, needle: Seq<char>, i: int) -> bool {
    0 <= i && i + needle.len() <= hay.len() && hay.subrange(i, i + needle.len()) == needle
}

/// `needle` occurs somewhere in `hay`; an empty needle always occurs.
pub open spec fn is_substr(hay: Seq<char>, needle: Seq<char>) -> bool {
    exists|i: int| is_substr_at(hay, needle, i)
}

/// Checks one candidate position.
fn match_at(hay: &Vec<char>, needle: &Vec<char>, i: usize) -> (r: bool)
    requires
        i + needle@.len() <= hay@.len(),
    ensures
        r == is_substr_at(hay@, needle@, i as int),
{
    let hlen = hay.len();
    let mut j: usize = 0;
    while j < needle.len()
        invariant
            j <= needle@.len(),
            hlen == hay@.len(),
            i + needle@.len() <= hay@.len(),
            forall|k: int| 0 <= k < j ==> hay@[i + k] == needle@[k],
        decreases needle@.len() - j,
    {
        assert(i + j < hlen);
        if hay[i + j] != needle[j] {
            assert(hay@.subrange(i as int, i + needle@.len())[j as int] == hay@[i + j]);
            return false;
        }
        j += 1;
    }
    assert(hay@.subrange(i as int, i + needle@.len()) =~= needle@);
    true
}

/// Substring search over character vectors.
pub fn contains_chars(hay: &Vec<char>, needle: &Vec<char>) -> (r: bool)
    ensures
        r == is_substr(hay@, needle@),
{
    if needle.len() > hay.len() {
        assert(forall|i: int| !is_substr_at(hay@, needle@, i));
        return false;
    }
    if needle.len() == 0 {
        assert(hay@.subrange(0, 0) =~= needle@);
        assert(is_substr_at(hay@, needle@, 0));
        return true;
    }
    let hlen = hay.len();
    let last = hlen - needle.len();
    let mut i: usize = 0;
    while i <= last
        invariant
            0 < needle@.len() <= hay@.len(),
            hlen == hay@.len(),
            last == hay@.len() - needle@.len(),
            last < hlen,
            i <= last + 1,
            forall|k: int| 0 <= k < i ==> !is_substr_at(hay@, needle@, k),
        decreases last - i + 1,
    {
        if match_at(hay, needle, i) {
            return true;
        }
        i += 1;
    }
    assert(forall|k: int| !is_substr_at(hay@, needle@, k));
    false
}

// ---------------------------------------------------------------------------
// First occurrence
// ---------------------------------------------------------------------------

/// Position of the first occurrence of `a` or of `b` in `s`; `s.len()` when
/// neither occurs.
pub open spec fn find_first(s: Seq<char>, a: Seq<char>, b: Seq<char>) -> int
    decreases s.len(),
{
    if is_substr_at(s, a, 0) || is_substr_at(s, b, 0) {
        0
    } else if s.len() == 0 {
        0
    } else {
        1 + find_first(s.drop_first(), a, b)
    }
}

/// Occurrences in the tail of a sequence are occurrences one position later.
proof fn lemma_substr_at_shift(s: Seq<char>, p: Seq<char>, k: int)
    requires
        s.len() > 0,
        0 <= k,
    ensures
        is_substr_at(s.drop_first(), p, k) == is_substr_at(s, p, k + 1),
{
    if k + p.len() <= s.len() - 1 {
        assert(s.drop_first().subrange(k, k + p.len() as int) =~= s.subrange(
            k + 1,
            k + 1 + p.len(),
        ));
    }
}

/// `find_first` is the position scanned to by any search that found no match
/// earlier, and a match there (or ran off the end).
pub proof fn lemma_find_first(s: Seq<char>, a: Seq<char>, b: Seq<char>, p: int)
    requires
        a.len() > 0,
        b.len() > 0,
        0 <= p <= s.len(),
        forall|k: int| 0 <= k < p ==> !is_substr_at(s, a, k) && !is_substr_at(s, b, k),
        p < s.len() ==> is_substr_at(s, a, p) || is_substr_at(s, b, p),
    ensures
        find_first(s, a, b) == p,
    decreases s.len(),
{
    if p > 0 {
        let t = s.drop_first();
        assert forall|k: int| 0 <= k < p - 1 implies !is_substr_at(t, a, k) && !is_substr_at(
            t,
            b,
            k,
        ) by {
            lemma_substr_at_shift(s, a, k);
            lemma_substr_at_shift(s, b, k);
        }
        if p - 1 < t.len() {
            lemma_substr_at_shift(s, a, p - 1);
            lemma_substr_at_shift(s, b, p - 1);
        }
        lemma_find_first(t, a, b, p - 1);
    }
}

/// A single-character needle occurs at `j` exactly when that character stands
/// at `j`.
pub proof fn lemma_single_at(t: Seq<char>, c: char, j: int)
    ensures
        is_substr_at(t, seq![c], j) == (0 <= j < t.len() && t[j] == c),
{
    if 0 <= j && j + 1 <= t.len() {
        assert(t.subrange(j, j + 1) =~= seq![t[j]]);
        if t[j] == c {
            assert(t.subrange(j, j + 1) =~= seq![c]);
        } else {
            assert(seq![t[j]][0] == t[j]);
            assert(seq![c][0] == c);
        }
    }
}

/// Scans for the first occurrence of `a` or of `b`.
pub fn find_first_pair(l: &Vec<char>, a: &Vec<char>, b: &Vec<char>) -> (p: usize)
    requires
        a@.len() > 0,
        b@.len() > 0,
    ensures
        p == find_first(l@, a@, b@),
        p <= l@.len(),
        p < l@.len() ==> is_substr_at(l@, a@, p as int) || is_substr_at(l@, b@, p as int),
{
    let n = l.len();
    let mut i: usize = 0;
    while i < n
        invariant
            i <= n,
            n == l@.len(),
            a@.len() > 0,
            b@.len() > 0,
            forall|k: int| 0 <= k < i ==> !is_substr_at(l@, a@, k) && !is_substr_at(l@, b@, k),
        decreases n - i,
    {
        let ma = if a.len() <= n - i {
            match_at(l, a, i)
        } else {
            false
        };
        let mb = if b.len() <= n - i {
            match_at(l, b, i)
        } else {
            false
        };
        if ma || mb {
            proof {
                lemma_find_first(l@, a@, b@, i as int);
            }
            return i;
        }
        i += 1;
    }
    proof {
        lemma_find_first(l@, a@, b@, n as int);
    }
    n
}

// ---------------------------------------------------------------------------
// Splitting into lines
// ---------------------------------------------------------------------------

pub open spec fn nl_seq() -> Seq<char> {
    seq!['\n']
}

/// The segments of `s` between newline characters; always at least one
/// segment, and an empty `s` splits into one empty segment.
pub open spec fn split_lines(s: Seq<char>) -> Seq<Seq<char>>
    decreases s.len(),
{
    let p = find_first(s, nl_seq(), nl_seq());
    if 0 <= p < s.len() {
        seq![s.subrange(0, p)] + split_lines(s.subrange(p + 1, s.len() as int))
    } else {
        seq![s]
    }
}

/// Splits `s` at newline characters.
pub fn split_lines_str(s: &str) -> (v: Vec<String>)
    ensures
        v.deep_view() == split_lines(s@),
{
    let n = s.unicode_len();
    let mut out: Vec<String> = Vec::new();
    let mut start: usize = 0;
    proof {
        assert(s@.subrange(0, n as int) =~= s@);
        assert(out.deep_view() =~= Seq::<Seq<char>>::empty());
        assert(out.deep_view() + split_lines(s@) =~= split_lines(s@));
    }
    loop
        invariant
            start <= n,
            n == s@.len(),
            out.deep_view() + split_lines(s@.subrange(start as int, n as int)) == split_lines(s@),
        decreases n - start,
    {
        let ghost t = s@.subrange(start as int, n as int);
        let mut i: usize = start;
        while i < n && s.get_char(i) != '\n'
            invariant
                start <= i <= n,
                n == s@.len(),
                forall|k: int| start <= k < i ==> s@[k] != '\n',
            decreases n - i,
        {
            i += 1;
        }
        proof {
            assert forall|k: int| 0 <= k < i - start implies !is_substr_at(t, nl_seq(), k)
                && !is_substr_at(t, nl_seq(), k) by {
                lemma_single_at(t, '\n', k);
                assert(t[k] == s@[start + k]);
            }
            if i < n {
                lemma_single_at(t, '\n', i - start);
                assert(t[i - start] == s@[i as int]);
            }
            lemma_find_first(t, nl_seq(), nl_seq(), i - start);
        }
        let piece = s.substring_char(start, i);
        out.push(String::from_str(piece));
        proof {
            assert(piece@ =~= t.subrange(0, i - start));
        }
        if i == n {
            proof {
                assert(split_lines(t) == seq![t]);
                assert(piece@ =~= t);
                assert(out.deep_view() =~= out.deep_view().drop_last().push(piece@));
            }
            return out;
        }
        proof {
            assert(split_lines(t) == seq![t.subrange(0, i - start)] + split_lines(
                t.subrange(i - start + 1, t.len() as int),
            ));
            assert(t.subrange(i - start + 1, t.len() as int) =~= s@.subrange(
                i + 1,
                n as int,
            ));
            assert(out.deep_view() =~= out.deep_view().drop_last().push(piece@));
            assert(out.deep_view() + split_lines(s@.subrange(i + 1, n as int))
                =~= split_lines(s@));
        }
        start = i + 1;
    }
}

// ---------------------------------------------------------------------------
// Trimming
// ---------------------------------------------------------------------------

pub open spec fn trim_front(s: Seq<char>) -> Seq<char>
    decreases s.len(),
{
    if s.len() > 0 && is_ws_char(s[0]) {
        trim_front(s.drop_first())
    } else {
        s
    }
}

pub open spec fn trim_back(s: Seq<char>) -> Seq<char>
    decreases s.len(),
{
    if s.len() > 0 && is_ws_char(s[s.len() - 1]) {
        trim_back(s.drop_last())
    } else {
        s
    }
}

/// `s` with leading and trailing whitespace removed.
pub open spec fn trim_spec(s: Seq<char>) -> Seq<char> {
    trim_back(trim_front(s))
}

/// Removes leading and trailing whitespace.
pub fn trim_str<'a>(s: &'a str) -> (r: &'a str)
    ensures
        r@ == trim_spec(s@),
{
    let n = s.unicode_len();
    let mut a: usize = 0;
    proof {
        assert(s@.subrange(0, n as int) =~= s@);
    }
    while a < n && is_ws(s.get_char(a))
        invariant
            a <= n,
            n == s@.len(),
            trim_front(s@) == trim_front(s@.subrange(a as int, n as int)),
        decreases n - a,
    {
        proof {
            assert(s@.subrange(a as int, n as int).drop_first() =~= s@.subrange(
                a as int + 1,
                n as int,
            ));
        }
        a += 1;
    }
    proof {
        assert(trim_front(s@) =~= s@.subrange(a as int, n as int));
    }
    let mut b: usize = n;
    while b > a && is_ws(s.get_char(b - 1))
        invariant
            a <= b <= n,
            n == s@.len(),
            trim_back(s@.subrange(a as int, n as int)) == trim_back(
                s@.subrange(a as int, b as int),
            ),
        decreases b,
    {
        proof {
            assert(s@.subrange(a as int, b as int).drop_last() =~= s@.subrange(
                a as int,
                b as int - 1,
            ));
        }
        b -= 1;
    }
    proof {
        assert(trim_back(s@.subrange(a as int, b as int)) == s@.subrange(a as int, b as int));
    }
    s.substring_char(a, b)
}

// ---------------------------------------------------------------------------
// Case folding and string building (trusted wrappers)
// ---------------------------------------------------------------------------

/// The Unicode lowercase folding of a character sequence.
pub uninterp spec fn lower_of(s: Seq<char>) -> Seq<char>;

/// Relies on str::to_lowercase: the result depends on the characters alone,
/// and no characters come from nothing.
#[verifier::external_body]
pub(crate) fn lower_str(s: &str) -> (r: String)
    ensures
        r@ == lower_of(s@),
        s@.len() == 0 ==> r@.len() == 0,
{
    s.to_lowercase()
}

/// Relies on String::push: appends exactly the given character.
#[verifier::external_body]
pub(crate) fn push_char(s: &mut String, c: char)
    ensures
        final(s)@ == old(s)@.push(c),
{
    s.push(c);
}

/// Builds the string whose characters are `v`.
pub fn string_from_chars(v: &Vec<char>) -> (s: String)
    ensures
        s@ == v@,
{
    let mut s = String::new();
    let mut i: usize = 0;
    let n = v.len();
    while i < n
        invariant
            i <= n,
            n == v@.len(),
            s@ == v@.subrange(0, i as int),
        decreases n - i,
    {
        push_char(&mut s, v[i]);
        i += 1;
        assert(s@ =~= v@.subrange(0, i as int));
    }
    assert(v@.subrange(0, n as int) =~= v@);
    s
}

// ---------------------------------------------------------------------------
// Markdown escaping
// ---------------------------------------------------------------------------

/// The characters that are prefixed with a backslash before display.
pub open spec fn needs_escape(c: char) -> bool {
    c == '\\' || c == '`' || c == '*' || c == '_' || c == '{' || c == '}' || c == '[' || c == ']'
        || c == '(' || c == ')' || c == '<' || c == '>' || c == '#' || c == '+' || c == '-'
        || c == '.' || c == '!' || c == '|'
}

/// `s` with every reserved display character preceded by a backslash.
pub open spec fn escape_spec(s: Seq<char>) -> Seq<char>
    decreases s.len(),
{
    if s.len() == 0 {
        s
    } else {
        (if needs_escape(s[0]) {
            seq!['\\', s[0]]
        } else {
            seq![s[0]]
        }) + escape_spec(s.drop_first())
    }
}

fn needs_escape_exec(c: char) -> (r: bool)
    ensures
        r == needs_escape(c),
{
    c == '\\' || c == '`' || c == '*' || c == '_' || c == '{' || c == '}' || c == '[' || c == ']'
        || c == '(' || c == ')' || c == '<' || c == '>' || c == '#' || c == '+' || c == '-'
        || c == '.' || c == '!' || c == '|'
}

/// Prefixes each reserved display character of `input` with a backslash.
pub fn escape_markdown_special_chars(input: &str) -> (r: String)
    ensures
        r@ == escape_spec(input@),
{
    let n = input.unicode_len();
    let mut out = String::new();
    let mut i: usize = 0;
    proof {
        assert(input@.subrange(0, n as int) =~= input@);
        assert(out@ + escape_spec(input@) =~= escape_spec(input@));
    }
    while i < n
        invariant
            i <= n,
            n == input@.len(),
            out@ + escape_spec(input@.subrange(i as int, n as int)) == escape_spec(input@),
        decreases n - i,
    {
        let ghost t = input@.subrange(i as int, n as int);
        let c = input.get_char(i);
        proof {
            assert(t.drop_first() =~= input@.subrange(i as int + 1, n as int));
        }
        if needs_escape_exec(c) {
            push_char(&mut out, '\\');
            push_char(&mut out, c);
            proof {
                assert(out@ + escape_spec(input@.subrange(i as int + 1, n as int)) =~= escape_spec(
                    input@,
                ));
            }
        } else {
            push_char(&mut out, c);
            proof {
                assert(out@ + escape_spec(input@.subrange(i as int + 1, n as int)) =~= escape_spec(
                    input@,
                ));
            }
        }
        i += 1;
    }
    proof {
        assert(escape_spec(input@.subrange(n as int, n as int)) =~= Seq::<char>::empty());
        assert(out@ =~= out@ + Seq::<char>::empty());
    }
    out
}

} // verus!
