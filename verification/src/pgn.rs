//! Move extraction: from the free-form text of a game record to the ordered
//! list of its move tokens.

use crate::text::{
    ascii, ascii_space, bytes_of, ink_start, is_ascii_space, lemma_ink_end_bounds,
    lemma_ink_start_bounds, same_bytes, trim, trimmed,
};
use vstd::prelude::*;
use vstd::slice::{slice_subrange, slice_to_vec};
use vstd::string::*;

verus! {

/// The byte that ends a line.
pub const NEWLINE: u8 = 0x0A;

/// The byte that fills the place of discarded text.
pub const SPACE: u8 = 0x20;

/// The byte `.`, which marks a move number.
pub const DOT: u8 = 0x2E;

/// The byte `[`, which opens a metadata line.
pub const BRACKET: u8 = 0x5B;

/// The byte `{`, which opens a comment.
pub const OPEN_BRACE: u8 = 0x7B;

/// The byte `}`, which closes a comment.
pub const CLOSE_BRACE: u8 = 0x7D;

/// Whether position `i` of a line lies behind the opening of a comment that
/// has not been closed before it. Comments do not nest: the first `}` closes.
pub open spec fn in_comment(line: Seq<u8>, i: int) -> bool
    decreases i,
{
    if i <= 0 {
        false
    } else if in_comment(line, i - 1) {
        line[i - 1] != CLOSE_BRACE
    } else {
        line[i - 1] == OPEN_BRACE
    }
}

/// Whether the byte at `i` belongs to a comment, its braces included. A
/// comment that is never closed runs to the end of the line.
pub open spec fn discarded(line: Seq<u8>, i: int) -> bool {
    in_comment(line, i) || line[i] == OPEN_BRACE
}

/// The line with every byte of a comment replaced by a space.
pub open spec fn visible(line: Seq<u8>) -> Seq<u8> {
    Seq::new(
        line.len(),
        |i: int|
            if discarded(line, i) {
                SPACE
            } else {
                line[i]
            },
    )
}

/// Whether a word starts at `i`: a byte that is not white space, at the start
/// of the text or behind white space.
pub open spec fn starts_word(s: Seq<u8>, i: int) -> bool {
    &&& 0 <= i < s.len()
    &&& !is_ascii_space(s[i])
    &&& (i == 0 || is_ascii_space(s[i - 1]))
}

/// The first position at or after `i` that holds white space, or the end.
pub open spec fn word_end(s: Seq<u8>, i: int) -> int
    decreases s.len() - i,
{
    if 0 <= i < s.len() && !is_ascii_space(s[i]) {
        word_end(s, i + 1)
    } else {
        i
    }
}

/// The word that starts at `i`.
pub open spec fn word_at(s: Seq<u8>, i: int) -> Seq<u8> {
    s.subrange(i, word_end(s, i))
}

/// The four tokens that state the result of a game.
pub open spec fn is_result_marker(token: Seq<u8>) -> bool {
    ||| token == ascii("1-0"@)
    ||| token == ascii("0-1"@)
    ||| token == ascii("1/2-1/2"@)
    ||| token == ascii("*"@)
}

/// A word is a move unless it holds a dot, as move numbers do, or states the
/// result of the game.
pub open spec fn is_move(token: Seq<u8>) -> bool {
    !token.contains(DOT) && !is_result_marker(token)
}

/// The moves among the words that start at or after `i`, in order.
pub open spec fn moves_from(s: Seq<u8>, i: int) -> Seq<Seq<u8>>
    decreases s.len() - i,
{
    if i < 0 || i >= s.len() {
        Seq::empty()
    } else if starts_word(s, i) && is_move(word_at(s, i)) {
        seq![word_at(s, i)] + moves_from(s, i + 1)
    } else {
        moves_from(s, i + 1)
    }
}

/// A metadata line begins with a bracket.
pub open spec fn is_header(line: Seq<u8>) -> bool {
    line.len() > 0 && line[0] == BRACKET
}

/// The moves of one line: none for a metadata line, otherwise the moves among
/// the words that are left when the line is trimmed and its comments are
/// blanked out.
pub open spec fn line_moves(line: Seq<u8>) -> Seq<Seq<u8>> {
    let t = trimmed(line);
    if is_header(t) {
        Seq::empty()
    } else {
        moves_from(visible(t), 0)
    }
}

/// Whether a line starts at `i`: at the start of the text or behind a line
/// feed.
pub open spec fn starts_line(text: Seq<u8>, i: int) -> bool {
    &&& 0 <= i < text.len()
    &&& (i == 0 || text[i - 1] == NEWLINE)
}

/// The first position at or after `i` that holds a line feed, or the end.
pub open spec fn line_end(text: Seq<u8>, i: int) -> int
    decreases text.len() - i,
{
    if 0 <= i < text.len() && text[i] != NEWLINE {
        line_end(text, i + 1)
    } else {
        i
    }
}

/// The line that starts at `i`, without its line feed.
pub open spec fn line_at(text: Seq<u8>, i: int) -> Seq<u8> {
    text.subrange(i, line_end(text, i))
}

/// The moves of the lines that start at or after `i`, in order.
pub open spec fn extract_from(text: Seq<u8>, i: int) -> Seq<Seq<u8>>
    decreases text.len() - i,
{
    if i < 0 || i >= text.len() {
        Seq::empty()
    } else if starts_line(text, i) {
        line_moves(line_at(text, i)) + extract_from(text, i + 1)
    } else {
        extract_from(text, i + 1)
    }
}

/// The move tokens of a game text: the moves of its lines, in order.
pub open spec fn extract(text: Seq<u8>) -> Seq<Seq<u8>> {
    extract_from(text, 0)
}

/// A stretch without white space that ends at white space or at the end of
/// the text is a word up to its end.
pub proof fn lemma_word_end(s: Seq<u8>, a: int, e: int)
    requires
        0 <= a <= e <= s.len(),
        forall|k: int| a <= k < e ==> !is_ascii_space(#[trigger] s[k]),
        e == s.len() || is_ascii_space(s[e]),
    ensures
        word_end(s, a) == e,
    decreases e - a,
{
    if a < e {
        lemma_word_end(s, a + 1, e);
    }
}

/// A word ends between its start and the end of the text, and holds no white
/// space.
pub proof fn lemma_word_shape(s: Seq<u8>, a: int)
    requires
        0 <= a <= s.len(),
    ensures
        a <= word_end(s, a) <= s.len(),
        forall|k: int| a <= k < word_end(s, a) ==> !is_ascii_space(#[trigger] s[k]),
        0 <= a < s.len() && !is_ascii_space(s[a]) ==> a < word_end(s, a),
    decreases s.len() - a,
{
    if a < s.len() && !is_ascii_space(s[a]) {
        lemma_word_shape(s, a + 1);
    }
}

/// Where no word starts between two positions, the moves from the first are
/// the moves from the second.
pub proof fn lemma_moves_skip(s: Seq<u8>, a: int, b: int)
    requires
        0 <= a <= b <= s.len(),
        forall|k: int| a <= k < b ==> !starts_word(s, k),
    ensures
        moves_from(s, a) == moves_from(s, b),
    decreases b - a,
{
    if a < b {
        lemma_moves_skip(s, a + 1, b);
    }
}

/// A stretch without a line feed that ends at a line feed or at the end of the
/// text is a line up to its end.
pub proof fn lemma_line_end(text: Seq<u8>, a: int, e: int)
    requires
        0 <= a <= e <= text.len(),
        forall|k: int| a <= k < e ==> #[trigger] text[k] != NEWLINE,
        e == text.len() || text[e] == NEWLINE,
    ensures
        line_end(text, a) == e,
    decreases e - a,
{
    if a < e {
        lemma_line_end(text, a + 1, e);
    }
}

/// Where no line starts between two positions, the moves from the first are
/// the moves from the second.
pub proof fn lemma_extract_skip(text: Seq<u8>, a: int, b: int)
    requires
        0 <= a <= b <= text.len(),
        forall|k: int| a <= k < b ==> !starts_line(text, k),
    ensures
        extract_from(text, a) == extract_from(text, b),
    decreases b - a,
{
    if a < b {
        lemma_extract_skip(text, a + 1, b);
    }
}

/// Each of the moves found from `i` on is a word that starts at or after `i`.
/// Returns the start of the word that gave move `k`.
pub proof fn lemma_move_origin(s: Seq<u8>, i: int, k: int) -> (a: int)
    requires
        0 <= i <= s.len(),
        0 <= k < moves_from(s, i).len(),
    ensures
        i <= a < s.len(),
        starts_word(s, a),
        is_move(word_at(s, a)),
        moves_from(s, i)[k] == word_at(s, a),
    decreases s.len() - i,
{
    if starts_word(s, i) && is_move(word_at(s, i)) {
        if k == 0 {
            i
        } else {
            lemma_move_origin(s, i + 1, k - 1)
        }
    } else {
        lemma_move_origin(s, i + 1, k)
    }
}

/// Each of the moves found from `i` on is a move of a line that starts at or
/// after `i`. Returns the start of that line and the place of the move in it.
pub proof fn lemma_extract_origin(text: Seq<u8>, i: int, k: int) -> (r: (int, int))
    requires
        0 <= i <= text.len(),
        0 <= k < extract_from(text, i).len(),
    ensures
        i <= r.0,
        starts_line(text, r.0),
        0 <= r.1 < line_moves(line_at(text, r.0)).len(),
        extract_from(text, i)[k] == line_moves(line_at(text, r.0))[r.1],
    decreases text.len() - i,
{
    if starts_line(text, i) {
        let here = line_moves(line_at(text, i));
        if k < here.len() {
            (i, k)
        } else {
            lemma_extract_origin(text, i + 1, k - here.len())
        }
    } else {
        lemma_extract_origin(text, i + 1, k)
    }
}

/// Whether every `}` of a line closes a comment.
pub open spec fn closes_only_comments(line: Seq<u8>) -> bool {
    forall|j: int| 0 <= j < line.len() && line[j] == CLOSE_BRACE ==> in_comment(line, j)
}

/// Whether every `}` of a text closes a comment of its line.
pub open spec fn braces_paired(text: Seq<u8>) -> bool {
    forall|i: int| starts_line(text, i) ==> closes_only_comments(trimmed(line_at(text, i)))
}

/// Whether a line is a metadata line or holds white space only.
pub open spec fn is_header_or_blank(line: Seq<u8>) -> bool {
    is_header(trimmed(line)) || trimmed(line).len() == 0
}

/// The moves of a line that is not a metadata line are words of the line
/// itself: not empty, free of white space and of `{`, and free of `}` where
/// every `}` of the line closes a comment.
pub proof fn lemma_line_move_shape(line: Seq<u8>, k: int)
    requires
        0 <= k < moves_from(visible(line), 0).len(),
    ensures
        moves_from(visible(line), 0)[k].len() > 0,
        is_move(moves_from(visible(line), 0)[k]),
        forall|j: int|
            0 <= j < moves_from(visible(line), 0)[k].len() ==> !is_ascii_space(
                #[trigger] moves_from(visible(line), 0)[k][j],
            ),
        !moves_from(visible(line), 0)[k].contains(OPEN_BRACE),
        closes_only_comments(line) ==> !moves_from(visible(line), 0)[k].contains(CLOSE_BRACE),
{
    let v = visible(line);
    let a = lemma_move_origin(v, 0, k);
    lemma_word_shape(v, a);
    let m = word_at(v, a);
    assert forall|j: int| 0 <= j < m.len() implies !is_ascii_space(#[trigger] m[j]) && m[j]
        != OPEN_BRACE && (closes_only_comments(line) ==> m[j] != CLOSE_BRACE) by {
        assert(m[j] == v[a + j]);
        assert(!is_ascii_space(v[a + j]));
        assert(!discarded(line, a + j));
    }
}

/// Every extracted move is a word of the text: not empty, free of white
/// space, free of dots and no result marker.
pub proof fn lemma_moves_are_plain_words(text: Seq<u8>, k: int)
    requires
        0 <= k < extract(text).len(),
    ensures
        extract(text)[k].len() > 0,
        is_move(extract(text)[k]),
        forall|j: int|
            0 <= j < extract(text)[k].len() ==> !is_ascii_space(#[trigger] extract(text)[k][j]),
{
    let (start, idx) = lemma_extract_origin(text, 0, k);
    lemma_line_move_shape(trimmed(line_at(text, start)), idx);
}

/// No extracted move holds a `{`, and in a text whose every `}` closes a
/// comment none holds a `}` either.
pub proof fn lemma_moves_hold_no_braces(text: Seq<u8>, k: int)
    requires
        0 <= k < extract(text).len(),
    ensures
        !extract(text)[k].contains(OPEN_BRACE),
        braces_paired(text) ==> !extract(text)[k].contains(CLOSE_BRACE),
{
    let (start, idx) = lemma_extract_origin(text, 0, k);
    lemma_line_move_shape(trimmed(line_at(text, start)), idx);
}

/// A text whose lines are all metadata lines or blank holds no move from `i`
/// on.
proof fn lemma_headers_from(text: Seq<u8>, i: int)
    requires
        0 <= i <= text.len(),
        forall|j: int| starts_line(text, j) ==> is_header_or_blank(line_at(text, j)),
    ensures
        extract_from(text, i) == Seq::<Seq<u8>>::empty(),
    decreases text.len() - i,
{
    if i < text.len() {
        lemma_headers_from(text, i + 1);
        if starts_line(text, i) {
            assert(is_header_or_blank(line_at(text, i)));
            assert(line_moves(line_at(text, i)) =~= Seq::<Seq<u8>>::empty());
        }
    }
}

/// A text whose lines are all metadata lines or blank holds no move.
pub proof fn lemma_headers_hold_no_moves(text: Seq<u8>)
    requires
        forall|j: int| starts_line(text, j) ==> is_header_or_blank(line_at(text, j)),
    ensures
        extract(text).len() == 0,
{
    lemma_headers_from(text, 0);
}

/// The words of a text are fewer than half its bytes, rounded up, so the
/// moves among them are too.
pub proof fn lemma_moves_count(s: Seq<u8>, i: int)
    requires
        0 <= i <= s.len(),
    ensures
        moves_from(s, i).len() <= (s.len() - i + 1) / 2,
    decreases s.len() - i,
{
    if i < s.len() {
        lemma_moves_count(s, i + 1);
        if starts_word(s, i) && i + 1 < s.len() {
            lemma_moves_count(s, i + 2);
            assert(!starts_word(s, i + 1));
        }
    }
}

/// A text is no shorter than what is left of it when it is trimmed.
pub proof fn lemma_trimmed_len(s: Seq<u8>)
    ensures
        trimmed(s).len() <= s.len(),
{
    lemma_ink_start_bounds(s, 0);
    lemma_ink_end_bounds(s, ink_start(s, 0), s.len() as int);
}

/// The moves of the lines from `i` on are fewer than half the bytes from
/// `i` on, rounded up.
pub proof fn lemma_extract_count(text: Seq<u8>, i: int)
    requires
        0 <= i <= text.len(),
    ensures
        extract_from(text, i).len() <= (text.len() - i + 1) / 2,
    decreases text.len() - i,
{
    if i < text.len() {
        if starts_line(text, i) {
            let e = line_end(text, i);
            lemma_line_end_shape(text, i);
            let line = line_at(text, i);
            lemma_trimmed_len(line);
            if !is_header(trimmed(line)) {
                lemma_moves_count(visible(trimmed(line)), 0);
            }
            if e < text.len() {
                lemma_extract_count(text, e + 1);
                assert forall|k: int| i + 1 <= k < e + 1 implies !starts_line(text, k) by {
                    assert(text[k - 1] != NEWLINE);
                }
                lemma_extract_skip(text, i + 1, e + 1);
            } else {
                assert forall|k: int| i + 1 <= k < e implies !starts_line(text, k) by {
                    assert(text[k - 1] != NEWLINE);
                }
                lemma_extract_skip(text, i + 1, e);
            }
        } else {
            lemma_extract_count(text, i + 1);
        }
    }
}

/// A line ends between its start and the end of the text, and holds no line
/// feed.
pub proof fn lemma_line_end_shape(text: Seq<u8>, a: int)
    requires
        0 <= a <= text.len(),
    ensures
        a <= line_end(text, a) <= text.len(),
        forall|k: int| a <= k < line_end(text, a) ==> #[trigger] text[k] != NEWLINE,
        line_end(text, a) < text.len() ==> text[line_end(text, a)] == NEWLINE,
    decreases text.len() - a,
{
    if a < text.len() && text[a] != NEWLINE {
        lemma_line_end_shape(text, a + 1);
    }
}

/// Tells whether a word is a move.
pub fn is_move_token(token: &[u8]) -> (r: bool)
    ensures
        r == is_move(token@),
{
    let n = token.len();
    let mut i: usize = 0;
    while i < n
        invariant
            n == token.len(),
            i <= n,
            forall|k: int| 0 <= k < i ==> token@[k] != DOT,
        decreases n - i,
    {
        if token[i] == DOT {
            return false;
        }
        i += 1;
    }
    proof {
        reveal_strlit("1-0");
        reveal_strlit("0-1");
        reveal_strlit("1/2-1/2");
        reveal_strlit("*");
    }
    !same_bytes(token, bytes_of("1-0")) && !same_bytes(token, bytes_of("0-1")) && !same_bytes(
        token,
        bytes_of("1/2-1/2"),
    ) && !same_bytes(token, bytes_of("*"))
}

/// Appends the moves of one trimmed line that is no metadata line.
fn scan_line(line: &[u8], out: &mut Vec<Vec<u8>>)
    ensures
        final(out).deep_view() == old(out).deep_view() + moves_from(visible(line@), 0),
{
    let n = line.len();
    let ghost v = visible(line@);
    let ghost before = out.deep_view();
    let mut i: usize = 0;
    while i < n
        invariant
            n == line.len(),
            v == visible(line@),
            i <= n,
            i < n ==> !in_comment(line@, i as int),
            i == 0 || i == n || is_ascii_space(v[i - 1]) || is_ascii_space(v[i as int]),
            out.deep_view() + moves_from(v, i as int) == before + moves_from(v, 0),
        decreases n - i,
    {
        let b = line[i];
        if b == OPEN_BRACE {
            let mut j: usize = i + 1;
            while j < n && line[j] != CLOSE_BRACE
                invariant
                    n == line.len(),
                    v == visible(line@),
                    i < j <= n,
                    in_comment(line@, j as int),
                    forall|k: int| i <= k < j ==> is_ascii_space(#[trigger] v[k]),
                decreases n - j,
            {
                j += 1;
            }
            if j < n {
                j += 1;
            }
            proof {
                lemma_moves_skip(v, i as int, j as int);
            }
            i = j;
        } else if ascii_space(b) {
            i += 1;
        } else {
            let start = i;
            i += 1;
            while i < n && !ascii_space(line[i]) && line[i] != OPEN_BRACE
                invariant
                    n == line.len(),
                    v == visible(line@),
                    start < i <= n,
                    !in_comment(line@, i as int),
                    forall|k: int| start <= k < i ==> #[trigger] v[k] == line@[k],
                    forall|k: int| start <= k < i ==> !is_ascii_space(#[trigger] v[k]),
                decreases n - i,
            {
                i += 1;
            }
            let token = slice_subrange(line, start, i);
            proof {
                lemma_word_end(v, start as int, i as int);
                assert(word_at(v, start as int) =~= token@);
                assert(starts_word(v, start as int));
                assert forall|k: int| start + 1 <= k < i implies !starts_word(v, k) by {
                    assert(!is_ascii_space(v[k - 1]));
                }
                lemma_moves_skip(v, start + 1, i as int);
            }
            if is_move_token(token) {
                let owned = slice_to_vec(token);
                let ghost prev = out.deep_view();
                out.push(owned);
                proof {
                    assert(owned.deep_view() =~= token@);
                    assert(out.deep_view() =~= prev + seq![token@]);
                    assert(prev + seq![token@] + moves_from(v, i as int) =~= prev + (seq![token@]
                        + moves_from(v, i as int)));
                }
            }
        }
    }
    proof {
        assert(out.deep_view() + moves_from(v, n as int) =~= out.deep_view());
    }
}

/// Extracts the move tokens of a game text, in order: metadata lines and
/// comments are skipped, move numbers and result markers are dropped.
pub fn extract_moves(text: &[u8]) -> (moves: Vec<Vec<u8>>)
    ensures
        moves.deep_view() == extract(text@),
        moves.len() <= (text.len() + 1) / 2,
{
    proof {
        lemma_extract_count(text@, 0);
    }
    let n = text.len();
    let mut out: Vec<Vec<u8>> = Vec::new();
    let mut i: usize = 0;
    proof {
        assert(out.deep_view() =~= Seq::<Seq<u8>>::empty());
        assert(out.deep_view() + extract_from(text@, 0) =~= extract(text@));
    }
    while i < n
        invariant
            n == text.len(),
            i <= n,
            i < n ==> starts_line(text@, i as int),
            out.deep_view() + extract_from(text@, i as int) == extract(text@),
        decreases n - i,
    {
        let mut e: usize = i;
        while e < n && text[e] != NEWLINE
            invariant
                n == text.len(),
                i <= e <= n,
                forall|k: int| i <= k < e ==> #[trigger] text@[k] != NEWLINE,
            decreases n - e,
        {
            e += 1;
        }
        let line = trim(slice_subrange(text, i, e));
        let ghost prev = out.deep_view();
        if !(line.len() > 0 && line[0] == BRACKET) {
            scan_line(line, &mut out);
        }
        let next: usize = if e < n {
            e + 1
        } else {
            n
        };
        proof {
            lemma_line_end(text@, i as int, e as int);
            assert(out.deep_view() =~= prev + line_moves(line_at(text@, i as int)));
            assert forall|k: int| i + 1 <= k < next implies !starts_line(text@, k) by {
                assert(text@[k - 1] != NEWLINE);
            }
            lemma_extract_skip(text@, i + 1, next as int);
            assert(prev + line_moves(line_at(text@, i as int)) + extract_from(text@, next as int)
                =~= prev + (line_moves(line_at(text@, i as int)) + extract_from(
                text@,
                next as int,
            )));
        }
        i = next;
    }
    proof {
        assert(out.deep_view() + extract_from(text@, n as int) =~= out.deep_view());
    }
    out
}

/// Extracts the move tokens of a game text, in order.
pub fn parse_pgn_moves(pgn: &str) -> (moves: Vec<Vec<u8>>)
    ensures
        moves.deep_view() == extract(pgn.spec_bytes()),
        moves.len() <= (pgn.spec_bytes().len() + 1) / 2,
{
    extract_moves(pgn.as_bytes())
}

} // verus!
