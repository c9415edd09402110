//! The result encoder: an ordered match set becomes a numbered display
//! message (1-based, titles escaped for display) and a grid of view action
//! tokens in the same order, in rows of at most five.

use vstd::prelude::*;
use vstd::string::*;
use crate::store::{Note, NoteView, note_views};
use crate::text::{escape_spec, escape_markdown_special_chars, push_char};
use crate::token::{Verb, token_spec, encode_token};

verus! {

pub open spec fn digit_char(d: int) -> char {
    if d == 0 {
        '0'
    } else if d == 1 {
        '1'
    } else if d == 2 {
        '2'
    } else if d == 3 {
        '3'
    } else if d == 4 {
        '4'
    } else if d == 5 {
        '5'
    } else if d == 6 {
        '6'
    } else if d == 7 {
        '7'
    } else if d == 8 {
        '8'
    } else {
        '9'
    }
}

/// The decimal digits of `n`, most significant first.
pub open spec fn dec_digits(n: nat) -> Seq<char>
    decreases n,
{
    if n < 10 {
        seq![digit_char(n as int)]
    } else {
        dec_digits(n / 10) + seq![digit_char((n % 10) as int)]
    }
}

fn digit_exec(d: usize) -> (c: char)
    requires
        d < 10,
    ensures
        c == digit_char(d as int),
{
    if d == 0 {
        '0'
    } else if d == 1 {
        '1'
    } else if d == 2 {
        '2'
    } else if d == 3 {
        '3'
    } else if d == 4 {
        '4'
    } else if d == 5 {
        '5'
    } else if d == 6 {
        '6'
    } else if d == 7 {
        '7'
    } else if d == 8 {
        '8'
    } else {
        '9'
    }
}

/// Appends the decimal rendering of `n`.
fn push_decimal(s: &mut String, n: usize)
    ensures
        final(s)@ == old(s)@ + dec_digits(n as nat),
    decreases n,
{
    if n < 10 {
        let c = digit_exec(n);
        push_char(s, c);
        proof {
            assert(s@ =~= old(s)@ + dec_digits(n as nat));
        }
    } else {
        push_decimal(s, n / 10);
        let c = digit_exec(n % 10);
        push_char(s, c);
        proof {
            assert(s@ =~= old(s)@ + dec_digits(n as nat));
        }
    }
}

/// The fixed heading of a result message.
pub open spec fn results_header() -> Seq<char> {
    "Список найденных заметок:\n"@
}

/// One line of the display message: a backtick-quoted 1-based index and the
/// escaped title.
pub open spec fn note_line(idx: nat, title: Seq<char>) -> Seq<char> {
    seq!['`'] + dec_digits(idx) + seq![')', '`', ' '] + escape_spec(title) + seq!['\n']
}

pub open spec fn message_lines(ms: Seq<NoteView>, i: int) -> Seq<char>
    decreases ms.len() - i,
{
    if i < 0 || i >= ms.len() {
        Seq::<char>::empty()
    } else {
        note_line((i + 1) as nat, ms[i].title) + message_lines(ms, i + 1)
    }
}

/// The whole display message for a match set.
pub open spec fn message_spec(ms: Seq<NoteView>) -> Seq<char> {
    results_header() + message_lines(ms, 0)
}

/// One row of view tokens.
pub open spec fn row_tokens(ms: Seq<NoteView>) -> Seq<Seq<char>> {
    ms.map_values(|m: NoteView| token_spec(Verb::View, m.tag, m.title))
}

/// The token grid: rows of five, the last row shorter when the count is not
/// a multiple of five, in match order.
pub open spec fn grid_spec(ms: Seq<NoteView>) -> Seq<Seq<Seq<char>>>
    decreases ms.len(),
{
    if ms.len() == 0 {
        Seq::<Seq<Seq<char>>>::empty()
    } else if ms.len() <= 5 {
        seq![row_tokens(ms)]
    } else {
        seq![row_tokens(ms.take(5))] + grid_spec(ms.skip(5))
    }
}

/// Renders a match set as its display message and its grid of view tokens.
pub fn create_message_and_keyboard(notes: &Vec<Note>) -> (r: (String, Vec<Vec<String>>))
    ensures
        r.0@ == message_spec(note_views(notes@)),
        r.1.deep_view() == grid_spec(note_views(notes@)),
{
    let ghost ms = note_views(notes@);
    let n = notes.len();
    let mut msg = String::from_str("Список найденных заметок:\n");
    let mut i: usize = 0;
    while i < n
        invariant
            i <= n,
            n == notes@.len(),
            ms == note_views(notes@),
            msg@ + message_lines(ms, i as int) == message_spec(ms),
        decreases n - i,
    {
        let ghost before = msg@;
        let nt = &notes[i];
        push_char(&mut msg, '`');
        push_decimal(&mut msg, i + 1);
        msg.append(")` ");
        let esc = escape_markdown_special_chars(nt.title.as_str());
        msg.append(esc.as_str());
        push_char(&mut msg, '\n');
        proof {
            reveal_strlit(")` ");
            assert(")` "@ =~= seq![')', '`', ' ']);
            assert(ms[i as int] == notes@[i as int]@);
            assert(msg@ =~= before + note_line((i + 1) as nat, ms[i as int].title));
            assert(message_lines(ms, i as int) == note_line((i + 1) as nat, ms[i as int].title)
                + message_lines(ms, i + 1));
            assert(msg@ + message_lines(ms, i + 1) =~= before + message_lines(ms, i as int));
        }
        i += 1;
    }
    proof {
        assert(message_lines(ms, n as int) =~= Seq::<char>::empty());
        assert(msg@ =~= msg@ + message_lines(ms, n as int));
    }
    let mut grid: Vec<Vec<String>> = Vec::new();
    let mut start: usize = 0;
    proof {
        assert(ms.skip(0) =~= ms);
        assert(grid.deep_view() =~= Seq::<Seq<Seq<char>>>::empty());
        assert(grid.deep_view() + grid_spec(ms) =~= grid_spec(ms));
    }
    while start < n
        invariant
            start <= n,
            n == notes@.len(),
            ms == note_views(notes@),
            grid.deep_view() + grid_spec(ms.skip(start as int)) == grid_spec(ms),
        decreases n - start,
    {
        let stop = if n - start < 5 {
            n
        } else {
            start + 5
        };
        let mut row: Vec<String> = Vec::new();
        let mut j: usize = start;
        proof {
            assert(row.deep_view() =~= row_tokens(ms.subrange(start as int, start as int)));
        }
        while j < stop
            invariant
                start <= j <= stop <= n,
                n == notes@.len(),
                ms == note_views(notes@),
                row.deep_view() == row_tokens(ms.subrange(start as int, j as int)),
            decreases stop - j,
        {
            let nt = &notes[j];
            let tok = encode_token(Verb::View, nt.tag.as_str(), nt.title.as_str());
            let ghost prevv = row@;
            row.push(tok);
            proof {
                assert(row@ == prevv.push(row@[row@.len() - 1]));
                assert(ms.subrange(start as int, j as int).len() == j - start);
                assert(row_tokens(ms.subrange(start as int, j as int)).len() == j - start);
                assert(prevv.len() == j - start);
                assert(ms[j as int] == notes@[j as int]@);
                assert(row@[row@.len() - 1]@ == token_spec(
                    Verb::View,
                    ms[j as int].tag,
                    ms[j as int].title,
                ));
                assert forall|k: int| 0 <= k < j - start implies row.deep_view()[k]
                    == row_tokens(ms.subrange(start as int, j as int))[k] by {
                    assert(row@[k] == prevv[k]);
                }
                assert(row.deep_view() =~= row_tokens(ms.subrange(start as int, j + 1)));
            }
            j += 1;
        }
        let ghost prev = grid.deep_view();
        let ghost rest = ms.skip(start as int);
        grid.push(row);
        proof {
            assert(grid.deep_view() =~= prev.push(grid@[grid@.len() - 1].deep_view()));
            if rest.len() <= 5 {
                assert(stop == n);
                assert(ms.subrange(start as int, n as int) =~= rest);
                assert(grid_spec(rest) == seq![row_tokens(rest)]);
                assert(grid.deep_view() =~= prev + grid_spec(rest));
                assert(ms.skip(n as int) =~= Seq::<NoteView>::empty());
                assert(grid_spec(ms.skip(n as int)) == Seq::<Seq<Seq<char>>>::empty());
                assert(grid.deep_view() + grid_spec(ms.skip(stop as int)) =~= grid_spec(ms));
            } else {
                assert(stop == start + 5);
                assert(ms.subrange(start as int, stop as int) =~= rest.take(5));
                assert(grid_spec(rest) == seq![row_tokens(rest.take(5))] + grid_spec(rest.skip(5)));
                assert(rest.skip(5) =~= ms.skip(stop as int));
                assert(grid.deep_view() + grid_spec(ms.skip(stop as int)) =~= grid_spec(ms));
            }
        }
        start = stop;
    }
    proof {
        assert(ms.skip(n as int) =~= Seq::<NoteView>::empty());
        assert(grid_spec(ms.skip(n as int)) == Seq::<Seq<Seq<char>>>::empty());
        assert(grid.deep_view() =~= grid.deep_view() + grid_spec(ms.skip(n as int)));
    }
    (msg, grid)
}

// ---------------------------------------------------------------------------
// Laws
// ---------------------------------------------------------------------------

/// Law: for a match set of `n` notes the grid has ceiling(n / 5) rows, every
/// row but the last has five tokens, the last has the remainder, and the
/// token at row `r`, column `c` is the view token of match `5 r + c`.
pub proof fn lemma_grid_shape(ms: Seq<NoteView>)
    ensures
        grid_spec(ms).len() == (ms.len() + 4) / 5,
        forall|r: int|
            0 <= r < grid_spec(ms).len() ==> (#[trigger] grid_spec(ms)[r]).len() == (if r
                < grid_spec(ms).len() - 1 {
                5int
            } else {
                ms.len() - 5 * r
            }),
        forall|r: int, c: int|
            0 <= r < grid_spec(ms).len() && 0 <= c < grid_spec(ms)[r].len()
                ==> (#[trigger] grid_spec(ms)[r][c]) == token_spec(
                Verb::View,
                ms[5 * r + c].tag,
                ms[5 * r + c].title,
            ),
    decreases ms.len(),
{
    if ms.len() == 0 {
    } else if ms.len() <= 5 {
        assert(grid_spec(ms) == seq![row_tokens(ms)]);
        assert(grid_spec(ms).len() == 1);
    } else {
        let rest = ms.skip(5);
        lemma_grid_shape(rest);
        assert(grid_spec(ms) == seq![row_tokens(ms.take(5))] + grid_spec(rest));
        assert((ms.len() + 4) / 5 == 1 + (rest.len() + 4) / 5);
        assert forall|r: int, c: int|
            0 <= r < grid_spec(ms).len() && 0 <= c < grid_spec(ms)[r].len() implies (
        #[trigger] grid_spec(ms)[r][c]) == token_spec(
            Verb::View,
            ms[5 * r + c].tag,
            ms[5 * r + c].title,
        ) by {
            if r == 0 {
                assert(grid_spec(ms)[0] == row_tokens(ms.take(5)));
                assert(ms.take(5)[c] == ms[c]);
            } else {
                assert(grid_spec(ms)[r] == grid_spec(rest)[r - 1]);
                assert(grid_spec(rest)[r - 1][c] == token_spec(
                    Verb::View,
                    rest[5 * (r - 1) + c].tag,
                    rest[5 * (r - 1) + c].title,
                ));
                assert(rest[5 * (r - 1) + c] == ms[5 * r + c]);
            }
        }
    }
}

} // verus!
