use vstd::prelude::*;
use vstd::utf8::encode_utf8;
use crate::text::{is_white_space, char_is_white_space, is_blank, str_is_blank, concat_str};
use crate::mentorship::texts;

verus! {

/// The pieces of `s` between white-space characters (some of them empty).
pub open spec fn split_ws(s: Seq<char>) -> Seq<Seq<char>>
    decreases s.len(),
{
    if s.len() == 0 {
        seq![Seq::<char>::empty()]
    } else {
        let p = split_ws(s.drop_last());
        if is_white_space(s.last()) {
            p.push(Seq::<char>::empty())
        } else {
            p.update(p.len() - 1, p.last().push(s.last()))
        }
    }
}

/// The words of `s`, as `str::split_whitespace` gives them.
pub open spec fn words(s: Seq<char>) -> Seq<Seq<char>> {
    split_ws(s).filter(|w: Seq<char>| w.len() > 0)
}

/// The width that a line of text takes at a font size, in half units: its length in UTF-8
/// bytes (what `str::len` gives) times the size.
pub open spec fn line_width2(line: Seq<char>, size: nat) -> int {
    (encode_utf8(line).len() * size) as int
}

/// The lines and the line being filled while wrapping.
pub open spec fn wrap_step(state: (Seq<Seq<char>>, Seq<char>), word: Seq<char>, max_width: nat, size: nat) -> (
    Seq<Seq<char>>,
    Seq<char>,
) {
    let (lines, current) = state;
    let test = if current.len() == 0 {
        word
    } else {
        current + " "@ + word
    };
    if line_width2(test, size) > 2 * max_width && current.len() > 0 {
        (lines.push(current), word)
    } else {
        (lines, test)
    }
}

/// Wrapping the first words of a list.
pub open spec fn wrap_fold(ws: Seq<Seq<char>>, max_width: nat, size: nat) -> (Seq<Seq<char>>, Seq<char>)
    decreases ws.len(),
{
    if ws.len() == 0 {
        (Seq::empty(), Seq::empty())
    } else {
        wrap_step(wrap_fold(ws.drop_last(), max_width, size), ws.last(), max_width, size)
    }
}

/// The lines that a text is broken into so that each fits `max_width` at a font size, where a
/// character is half as wide as the size: words are added to a line while it fits, and a word
/// that does not fit on its own takes a line by itself. A text with no words is one line.
pub open spec fn wrapped(text: Seq<char>, max_width: nat, size: nat) -> Seq<Seq<char>> {
    let (lines, current) = wrap_fold(words(text), max_width, size);
    let all = if current.len() > 0 {
        lines.push(current)
    } else {
        lines
    };
    if all.len() == 0 {
        seq![text]
    } else {
        all
    }
}

proof fn lemma_split_ws_nonempty(s: Seq<char>)
    ensures
        split_ws(s).len() >= 1,
    decreases s.len(),
{
    if s.len() > 0 {
        lemma_split_ws_nonempty(s.drop_last());
    }
}

proof fn lemma_filter_push(s: Seq<Seq<char>>, x: Seq<char>)
    ensures
        s.push(x).filter(|w: Seq<char>| w.len() > 0) == if x.len() > 0 {
            s.filter(|w: Seq<char>| w.len() > 0).push(x)
        } else {
            s.filter(|w: Seq<char>| w.len() > 0)
        },
{
    reveal(Seq::filter);
    assert(s.push(x).drop_last() =~= s);
}

/// The words of a text; see [`words`].
pub fn split_whitespace(s: &str) -> (r: Vec<String>)
    ensures
        texts(r@) == words(s@),
{
    let n = s.unicode_len();
    let mut out: Vec<String> = Vec::new();
    let mut start: usize = 0;
    let mut i: usize = 0;
    proof {
        assert(s@.take(0) =~= Seq::<char>::empty());
        assert(s@.subrange(0, 0) =~= Seq::<char>::empty());
        assert(split_ws(s@.take(0)) =~= seq![Seq::<char>::empty()]);
        assert(seq![Seq::<char>::empty()] =~= Seq::<Seq<char>>::empty().push(Seq::<char>::empty()));
        lemma_filter_push(Seq::<Seq<char>>::empty(), Seq::<char>::empty());
        assert(Seq::<Seq<char>>::empty().filter(|w: Seq<char>| w.len() > 0) =~= Seq::<Seq<char>>::empty());
    }
    while i < n
        invariant
            n == s@.len(),
            start <= i <= n,
            ({
                let p = split_ws(s@.take(i as int));
                &&& p.len() >= 1
                &&& p.last() == s@.subrange(start as int, i as int)
                &&& texts(out@) == p.drop_last().filter(|w: Seq<char>| w.len() > 0)
            }),
        decreases n - i,
    {
        let c = s.get_char(i);
        let ghost p = split_ws(s@.take(i as int));
        proof {
            let t = s@.take(i as int + 1);
            assert(t.drop_last() =~= s@.take(i as int));
            assert(t.last() == c);
        }
        if char_is_white_space(c) {
            if i > start {
                let w = String::from_str(s.substring_char(start, i));
                let ghost before = out@;
                out.push(w);
                proof {
                    assert(texts(out@) =~= texts(before).push(p.last()));
                }
            }
            proof {
                lemma_filter_push(p.drop_last(), p.last());
                assert(p =~= p.drop_last().push(p.last()));
                let q = split_ws(s@.take(i as int + 1));
                assert(q == p.push(Seq::<char>::empty()));
                assert(q.drop_last() =~= p);
                assert(s@.subrange(i as int + 1, i as int + 1) =~= Seq::<char>::empty());
            }
            start = i + 1;
        } else {
            proof {
                let q = split_ws(s@.take(i as int + 1));
                assert(q == p.update(p.len() - 1, p.last().push(c)));
                assert(q.drop_last() =~= p.drop_last());
                assert(s@.subrange(start as int, i as int + 1) =~= s@.subrange(start as int, i as int).push(c));
            }
        }
        i = i + 1;
    }
    let ghost p = split_ws(s@.take(n as int));
    proof {
        assert(s@.take(n as int) =~= s@);
        lemma_filter_push(p.drop_last(), p.last());
        assert(p =~= p.drop_last().push(p.last()));
    }
    if n > start {
        let w = String::from_str(s.substring_char(start, n));
        let ghost before = out@;
        out.push(w);
        proof {
            assert(texts(out@) =~= texts(before).push(p.last()));
        }
    }
    out
}

/// Breaks a text into lines that fit `max_width` at a font size; see [`wrapped`].
pub fn wrap_text(text: &str, max_width: u32, font_size: u32) -> (r: Vec<String>)
    ensures
        texts(r@) == wrapped(text@, max_width as nat, font_size as nat),
{
    let ws = split_whitespace(text);
    let ghost wv = texts(ws@);
    let mut lines: Vec<String> = Vec::new();
    let mut current = String::new();
    let mut i: usize = 0;
    while i < ws.len()
        invariant
            i <= ws.len(),
            wv == texts(ws@),
            wv == words(text@),
            (texts(lines@), current@) == wrap_fold(wv.take(i as int), max_width as nat, font_size as nat),
        decreases ws.len() - i,
    {
        proof {
            assert(wv.take(i as int + 1).drop_last() =~= wv.take(i as int));
            assert(wv.take(i as int + 1).last() == ws@[i as int]@);
            reveal_strlit(" ");
        }
        let word = ws[i].as_str();
        let test = if current.unicode_len() == 0 {
            String::from_str(word)
        } else {
            let spaced = concat_str(current.as_str(), " ");
            concat_str(spaced.as_str(), word)
        };
        let bytes = test.as_str().as_bytes().len() as u128;
        proof {
            assert(bytes == encode_utf8(test@).len());
            assert(bytes * (font_size as u128) <= 0xffff_ffff_ffff_ffff * 0xffff_ffffu128) by (nonlinear_arith)
                requires
                    bytes <= 0xffff_ffff_ffff_ffffu128,
                    font_size <= 0xffff_ffffu32,
            ;
        }
        let wide = bytes * (font_size as u128) > 2 * (max_width as u128);
        proof {
            assert(wide == (line_width2(test@, font_size as nat) > 2 * (max_width as nat)));
        }
        if wide && current.unicode_len() > 0 {
            let ghost before = lines@;
            lines.push(current);
            proof {
                assert(texts(lines@) =~= texts(before).push(lines@[before.len() as int]@));
            }
            current = String::from_str(word);
        } else {
            current = test;
        }
        i = i + 1;
    }
    proof {
        assert(wv.take(ws.len() as int) =~= wv);
    }
    if current.unicode_len() > 0 {
        let ghost before = lines@;
        lines.push(current);
        proof {
            assert(texts(lines@) =~= texts(before).push(lines@[before.len() as int]@));
        }
    }
    if lines.len() == 0 {
        let mut only: Vec<String> = Vec::new();
        only.push(String::from_str(text));
        assert(texts(only@) =~= seq![text@]);
        return only;
    }
    lines
}

/// The words of a line, with one space between each two.
pub open spec fn join_words(g: Seq<Seq<char>>) -> Seq<char>
    decreases g.len(),
{
    if g.len() == 0 {
        Seq::empty()
    } else if g.len() == 1 {
        g[0]
    } else {
        join_words(g.drop_last()) + " "@ + g.last()
    }
}

/// The groups of words one after another.
pub open spec fn concat_groups(gs: Seq<Seq<Seq<char>>>) -> Seq<Seq<char>>
    decreases gs.len(),
{
    if gs.len() == 0 {
        Seq::empty()
    } else {
        concat_groups(gs.drop_last()) + gs.last()
    }
}

/// `lines` break the words `ws` greedily into lines at most `max_width` wide at a font size:
/// each line is a group of the words joined by single spaces, the groups hold all the words in
/// order, a line of two or more words fits, and no line could have taken the first word of
/// the next line and still fitted.
pub open spec fn greedy_lines(
    lines: Seq<Seq<char>>,
    groups: Seq<Seq<Seq<char>>>,
    ws: Seq<Seq<char>>,
    max_width: nat,
    size: nat,
) -> bool {
    &&& lines.len() == groups.len()
    &&& concat_groups(groups) == ws
    &&& forall|k: int| 0 <= k < groups.len() ==> #[trigger] groups[k].len() > 0
    &&& forall|k: int| 0 <= k < lines.len() ==> #[trigger] lines[k] == join_words(groups[k])
    &&& forall|k: int|
        0 <= k < lines.len() && #[trigger] groups[k].len() > 1 ==> line_width2(lines[k], size) <= 2
            * max_width
    &&& forall|k: int|
        0 <= k < lines.len() - 1 ==> line_width2(#[trigger] lines[k] + " "@ + groups[k + 1][0], size)
            > 2 * max_width
}

/// The groups of words that wrapping the first words of a list has closed, and the group being
/// filled.
spec fn wrap_groups(ws: Seq<Seq<char>>, max_width: nat, size: nat) -> (Seq<Seq<Seq<char>>>, Seq<Seq<char>>)
    decreases ws.len(),
{
    if ws.len() == 0 {
        (Seq::empty(), Seq::empty())
    } else {
        let (gs, cur) = wrap_groups(ws.drop_last(), max_width, size);
        let w = ws.last();
        if cur.len() == 0 {
            (gs, seq![w])
        } else if line_width2(join_words(cur) + " "@ + w, size) > 2 * max_width {
            (gs.push(cur), seq![w])
        } else {
            (gs, cur.push(w))
        }
    }
}

proof fn lemma_join_nonempty(g: Seq<Seq<char>>)
    requires
        g.len() > 0,
        g[0].len() > 0,
    ensures
        join_words(g).len() > 0,
    decreases g.len(),
{
    if g.len() > 1 {
        lemma_join_nonempty(g.drop_last());
    }
}

proof fn lemma_wrap_groups(ws: Seq<Seq<char>>, max_width: nat, size: nat)
    requires
        forall|i: int| 0 <= i < ws.len() ==> #[trigger] ws[i].len() > 0,
    ensures
        ({
            let (gs, cur) = wrap_groups(ws, max_width, size);
            let (lines, current) = wrap_fold(ws, max_width, size);
            &&& lines == gs.map_values(|g: Seq<Seq<char>>| join_words(g))
            &&& current == join_words(cur)
            &&& concat_groups(gs) + cur == ws
            &&& (ws.len() == 0 <==> cur.len() == 0)
            &&& ws.len() == 0 ==> gs.len() == 0
            &&& forall|k: int| 0 <= k < gs.len() ==> #[trigger] gs[k].len() > 0 && gs[k][0].len() > 0
            &&& cur.len() > 0 ==> cur[0].len() > 0
            &&& forall|k: int|
                0 <= k < gs.len() && #[trigger] gs[k].len() > 1 ==> line_width2(join_words(gs[k]), size)
                    <= 2 * max_width
            &&& cur.len() > 1 ==> line_width2(join_words(cur), size) <= 2 * max_width
            &&& forall|k: int|
                0 <= k < gs.len() - 1 ==> line_width2(
                    join_words(#[trigger] gs[k]) + " "@ + gs[k + 1][0],
                    size,
                ) > 2 * max_width
            &&& gs.len() > 0 ==> line_width2(join_words(gs.last()) + " "@ + cur[0], size) > 2
                * max_width
        }),
    decreases ws.len(),
{
    if ws.len() > 0 {
        let prev = ws.drop_last();
        lemma_wrap_groups(prev, max_width, size);
        let (gs, cur) = wrap_groups(prev, max_width, size);
        let (lines, current) = wrap_fold(prev, max_width, size);
        let w = ws.last();
        assert(w.len() > 0);
        if cur.len() > 0 {
            lemma_join_nonempty(cur);
        } else {
            assert(join_words(cur).len() == 0);
        }
        let test = if current.len() == 0 {
            w
        } else {
            current + " "@ + w
        };
        if cur.len() == 0 {
            assert(prev.len() == 0);
            assert(seq![w] + Seq::<Seq<char>>::empty() =~= ws);
            assert(concat_groups(gs) =~= Seq::<Seq<char>>::empty());
            assert(concat_groups(gs) + seq![w] =~= ws);
        } else if line_width2(join_words(cur) + " "@ + w, size) > 2 * max_width {
            let ngs = gs.push(cur);
            assert(ngs.drop_last() =~= gs);
            assert(concat_groups(ngs) == concat_groups(gs) + cur);
            assert(concat_groups(ngs) + seq![w] =~= ws);
            assert(lines.push(current) =~= ngs.map_values(|g: Seq<Seq<char>>| join_words(g)));
            assert(join_words(seq![w]) == w);
        } else {
            let ncur = cur.push(w);
            assert(ncur.drop_last() =~= cur);
            assert(join_words(ncur) == join_words(cur) + " "@ + w);
            assert(concat_groups(gs) + ncur =~= (concat_groups(gs) + cur).push(w));
            assert(ncur[0] == cur[0]);
        }
    }
}

/// Wrapping keeps every word, in order, and fills lines greedily: the lines of [`wrapped`]
/// are groups of the text's words joined by single spaces, holding all the words in order; a
/// line of two or more words fits the width, and no line could also have taken the first word
/// of the next one. A text with no words is kept as one line.
pub proof fn law_wrapped_lines_greedy(text: Seq<char>, max_width: nat, size: nat)
    ensures
        words(text).len() == 0 ==> wrapped(text, max_width, size) == seq![text],
        words(text).len() > 0 ==> exists|groups: Seq<Seq<Seq<char>>>|
            greedy_lines(wrapped(text, max_width, size), groups, words(text), max_width, size),
{
    let ws = words(text);
    assert forall|i: int| 0 <= i < ws.len() implies #[trigger] ws[i].len() > 0 by {
        split_ws(text).lemma_filter_pred(|w: Seq<char>| w.len() > 0, i);
    }
    lemma_wrap_groups(ws, max_width, size);
    let (gs, cur) = wrap_groups(ws, max_width, size);
    let (lines, current) = wrap_fold(ws, max_width, size);
    if ws.len() == 0 {
        assert(join_words(cur).len() == 0);
        assert(lines.len() == 0);
    } else {
        lemma_join_nonempty(cur);
        let groups = gs.push(cur);
        let out = wrapped(text, max_width, size);
        assert(out == lines.push(current));
        assert(out =~= groups.map_values(|g: Seq<Seq<char>>| join_words(g)));
        assert(groups.drop_last() =~= gs);
        assert(concat_groups(groups) == ws);
        assert forall|k: int| 0 <= k < groups.len() implies #[trigger] groups[k].len() > 0 by {
            if k < gs.len() {
                assert(gs[k].len() > 0);
            }
        }
        assert forall|k: int|
            0 <= k < out.len() && #[trigger] groups[k].len() > 1 implies line_width2(out[k], size)
                <= 2 * max_width by {
            if k < gs.len() {
                assert(gs[k].len() > 1);
            }
        }
        assert forall|k: int|
            0 <= k < out.len() - 1 implies line_width2(#[trigger] out[k] + " "@ + groups[k + 1][0], size)
                > 2 * max_width by {
            assert(out[k] == join_words(gs[k]));
            if k < gs.len() - 1 {
                assert(groups[k + 1] == gs[k + 1]);
                assert(line_width2(join_words(gs[k]) + " "@ + gs[k + 1][0], size) > 2 * max_width);
            } else {
                assert(groups[k + 1] == cur);
            }
        }
        assert(greedy_lines(out, groups, ws, max_width, size));
    }
}

/// The pieces of `s` between its line feeds.
pub open spec fn split_lf(s: Seq<char>) -> Seq<Seq<char>>
    decreases s.len(),
{
    if s.len() == 0 {
        seq![Seq::<char>::empty()]
    } else {
        let p = split_lf(s.drop_last());
        if s.last() == '\n' {
            p.push(Seq::<char>::empty())
        } else {
            p.update(p.len() - 1, p.last().push(s.last()))
        }
    }
}

/// A line without the carriage return that ends it, if any.
pub open spec fn strip_cr(l: Seq<char>) -> Seq<char> {
    if l.len() > 0 && l.last() == '\r' {
        l.drop_last()
    } else {
        l
    }
}

/// The lines of a text, as `str::lines` gives them: split at line feeds, without a final
/// empty piece, each without a carriage return at its end.
pub open spec fn text_lines(s: Seq<char>) -> Seq<Seq<char>> {
    let p = split_lf(s);
    let q = if p.last().len() == 0 {
        p.drop_last()
    } else {
        p
    };
    q.map_values(|l: Seq<char>| strip_cr(l))
}

/// `s` starts with `p`.
pub open spec fn starts_with(s: Seq<char>, p: Seq<char>) -> bool {
    s.len() >= p.len() && s.take(p.len() as int) == p
}

/// How a line of the report is drawn: its text, font size and whether it is bold. "# ", "## "
/// and "### " start headings of sizes 18, 14 and 12, without their marks; a blank line is a
/// single space; everything else is body text of size 10.
pub open spec fn line_style(line: Seq<char>) -> (Seq<char>, nat, bool) {
    if starts_with(line, "# "@) {
        (line.skip(2), 18, true)
    } else if starts_with(line, "## "@) {
        (line.skip(3), 14, true)
    } else if starts_with(line, "### "@) {
        (line.skip(4), 12, true)
    } else if starts_with(line, "- "@) || starts_with(line, "* "@) {
        (line, 10, false)
    } else if is_blank(line) {
        (" "@, 10, false)
    } else {
        (line, 10, false)
    }
}

/// A line placed on the page: its text, font size, boldness and height from the bottom of the
/// page in millimetres.
pub struct PlacedLine {
    pub text: String,
    pub size: u32,
    pub bold: bool,
    pub y: i32,
}

/// The value of a placed line.
pub struct PlacedView {
    pub text: Seq<char>,
    pub size: nat,
    pub bold: bool,
    pub y: int,
}

pub open spec fn placed_view(v: Seq<PlacedLine>) -> Seq<PlacedView> {
    v.map_values(|p: PlacedLine| PlacedView { text: p.text@, size: p.size as nat, bold: p.bold, y: p.y as int })
}

/// The lowest height, in millimetres, at which a line is drawn.
pub const BOTTOM: i32 = 20;

/// Places wrapped pieces from height `y` down, six millimetres apart, while they stay at or
/// above the bottom margin.
pub open spec fn place_pieces(ws: Seq<Seq<char>>, size: nat, bold: bool, acc: (Seq<PlacedView>, int)) -> (Seq<PlacedView>, int)
    decreases ws.len(),
{
    if ws.len() == 0 {
        acc
    } else {
        let (placed, y) = place_pieces(ws.drop_last(), size, bold, acc);
        if y < BOTTOM {
            (placed, y)
        } else {
            (placed.push(PlacedView { text: ws.last(), size, bold, y }), y - 6)
        }
    }
}

/// Lays out the lines of a report from the top of an A4 page (280 mm) down: each line is
/// styled (see [`line_style`]), wrapped to 170 mm, and its pieces placed six millimetres
/// apart; "# " and "## " headings leave an extra gap below; nothing is placed below 20 mm.
pub open spec fn layout_lines(lines: Seq<Seq<char>>) -> (Seq<PlacedView>, int)
    decreases lines.len(),
{
    if lines.len() == 0 {
        (Seq::empty(), 280)
    } else {
        let (placed, y) = layout_lines(lines.drop_last());
        let line = lines.last();
        if y < BOTTOM {
            (placed, y)
        } else {
            let (text, size, bold) = line_style(line);
            let (placed2, y2) = place_pieces(wrapped(text, 170, size), size, bold, (placed, y));
            if starts_with(line, "# "@) || starts_with(line, "## "@) {
                (placed2, y2 - 6)
            } else {
                (placed2, y2)
            }
        }
    }
}

proof fn lemma_split_lf_nonempty(s: Seq<char>)
    ensures
        split_lf(s).len() >= 1,
    decreases s.len(),
{
    if s.len() > 0 {
        lemma_split_lf_nonempty(s.drop_last());
    }
}

/// Whether `s` starts with `p`.
pub fn str_starts_with(s: &str, p: &str) -> (r: bool)
    ensures
        r == starts_with(s@, p@),
{
    let n = s.unicode_len();
    let m = p.unicode_len();
    if n < m {
        return false;
    }
    let mut i: usize = 0;
    while i < m
        invariant
            n == s@.len(),
            m == p@.len(),
            m <= n,
            i <= m,
            forall|j: int| 0 <= j < i ==> s@[j] == p@[j],
        decreases m - i,
    {
        if s.get_char(i) != p.get_char(i) {
            assert(s@.take(m as int)[i as int] != p@[i as int]);
            return false;
        }
        i = i + 1;
    }
    assert(s@.take(m as int) =~= p@);
    true
}

/// The lines of a text; see [`text_lines`].
pub fn lines_of(s: &str) -> (r: Vec<String>)
    ensures
        texts(r@) == text_lines(s@),
{
    let n = s.unicode_len();
    let mut pieces: Vec<String> = Vec::new();
    let mut start: usize = 0;
    let mut i: usize = 0;
    proof {
        assert(s@.take(0) =~= Seq::<char>::empty());
        assert(s@.subrange(0, 0) =~= Seq::<char>::empty());
        assert(texts(pieces@).push(s@.subrange(0, 0)) =~= split_lf(s@.take(0)));
    }
    while i < n
        invariant
            n == s@.len(),
            start <= i <= n,
            texts(pieces@).push(s@.subrange(start as int, i as int)) == split_lf(s@.take(i as int)),
        decreases n - i,
    {
        let c = s.get_char(i);
        proof {
            let t = s@.take(i as int + 1);
            assert(t.drop_last() =~= s@.take(i as int));
            assert(t.last() == c);
            lemma_split_lf_nonempty(s@.take(i as int));
        }
        if c == '\n' {
            pieces.push(String::from_str(s.substring_char(start, i)));
            start = i + 1;
            proof {
                assert(s@.subrange(start as int, i as int + 1) =~= Seq::<char>::empty());
                assert(texts(pieces@).push(s@.subrange(start as int, i as int + 1)) =~= split_lf(s@.take(i as int + 1)));
            }
        } else {
            proof {
                assert(s@.subrange(start as int, i as int + 1) =~= s@.subrange(start as int, i as int).push(c));
                assert(texts(pieces@).push(s@.subrange(start as int, i as int + 1)) =~= split_lf(s@.take(i as int + 1)));
            }
        }
        i = i + 1;
    }
    let ghost p = split_lf(s@);
    proof {
        assert(s@.take(n as int) =~= s@);
    }
    if n > start {
        pieces.push(String::from_str(s.substring_char(start, n)));
        proof {
            assert(texts(pieces@) =~= p);
        }
    } else {
        proof {
            assert(texts(pieces@) =~= p.drop_last());
        }
    }
    let ghost q = texts(pieces@);
    let mut out: Vec<String> = Vec::new();
    let mut k: usize = 0;
    while k < pieces.len()
        invariant
            k <= pieces.len(),
            q == texts(pieces@),
            texts(out@) == q.take(k as int).map_values(|l: Seq<char>| strip_cr(l)),
        decreases pieces.len() - k,
    {
        let l = pieces[k].as_str();
        let m = l.unicode_len();
        let line = if m > 0 && l.get_char(m - 1) == '\r' {
            String::from_str(l.substring_char(0, m - 1))
        } else {
            String::from_str(l)
        };
        proof {
            if m > 0 {
                assert(l@.subrange(0, m - 1) =~= l@.drop_last());
            }
        }
        let ghost before = out@;
        out.push(line);
        proof {
            assert(q.take(k as int + 1).map_values(|l: Seq<char>| strip_cr(l)) =~= q.take(k as int).map_values(
                |l: Seq<char>| strip_cr(l),
            ).push(strip_cr(q[k as int])));
            assert(texts(out@) =~= texts(before).push(line@));
        }
        k = k + 1;
    }
    proof {
        assert(q.take(pieces.len() as int) =~= q);
    }
    out
}

/// The style of a report line; see [`line_style`].
pub fn style_line(line: &str) -> (r: (String, u32, bool))
    ensures
        (r.0@, r.1 as nat, r.2) == line_style(line@),
{
    let n = line.unicode_len();
    proof {
        reveal_strlit("# ");
        reveal_strlit("## ");
        reveal_strlit("### ");
        reveal_strlit("- ");
        reveal_strlit("* ");
        reveal_strlit(" ");
    }
    if str_starts_with(line, "# ") {
        (String::from_str(line.substring_char(2, n)), 18, true)
    } else if str_starts_with(line, "## ") {
        (String::from_str(line.substring_char(3, n)), 14, true)
    } else if str_starts_with(line, "### ") {
        (String::from_str(line.substring_char(4, n)), 12, true)
    } else if str_starts_with(line, "- ") || str_starts_with(line, "* ") {
        (String::from_str(line), 10, false)
    } else if str_is_blank(line) {
        (String::from_str(" "), 10, false)
    } else {
        (String::from_str(line), 10, false)
    }
}

/// Lays out a report written in simple markdown; see [`layout_lines`] and [`text_lines`].
pub fn layout_report(markdown: &str) -> (r: Vec<PlacedLine>)
    ensures
        placed_view(r@) == layout_lines(text_lines(markdown@)).0,
{
    let lines = lines_of(markdown);
    let ghost lv = texts(lines@);
    let mut placed: Vec<PlacedLine> = Vec::new();
    let mut y: i32 = 280;
    let mut i: usize = 0;
    while i < lines.len()
        invariant
            i <= lines.len(),
            lv == texts(lines@),
            (placed_view(placed@), y as int) == layout_lines(lv.take(i as int)),
            8 <= y <= 280,
        decreases lines.len() - i,
    {
        proof {
            assert(lv.take(i as int + 1).drop_last() =~= lv.take(i as int));
            assert(lv.take(i as int + 1).last() == lines@[i as int]@);
        }
        if y >= 20 {
            let line = lines[i].as_str();
            let (text, size, bold) = style_line(line);
            let pieces = wrap_text(text.as_str(), 170, size);
            let ghost pv = texts(pieces@);
            let ghost start = (placed_view(placed@), y as int);
            let mut k: usize = 0;
            while k < pieces.len()
                invariant
                    k <= pieces.len(),
                    pv == texts(pieces@),
                    (placed_view(placed@), y as int) == place_pieces(pv.take(k as int), size as nat, bold, start),
                    14 <= y <= 280,
                decreases pieces.len() - k,
            {
                proof {
                    assert(pv.take(k as int + 1).drop_last() =~= pv.take(k as int));
                    assert(pv.take(k as int + 1).last() == pieces@[k as int]@);
                }
                if y >= 20 {
                    let ghost before = placed@;
                    placed.push(PlacedLine { text: pieces[k].clone(), size, bold, y });
                    proof {
                        assert(placed_view(placed@) =~= placed_view(before).push(
                            PlacedView { text: pieces@[k as int]@, size: size as nat, bold, y: y as int },
                        ));
                    }
                    y = y - 6;
                }
                k = k + 1;
            }
            proof {
                assert(pv.take(pieces.len() as int) =~= pv);
                reveal_strlit("# ");
                reveal_strlit("## ");
            }
            if str_starts_with(line, "# ") || str_starts_with(line, "## ") {
                y = y - 6;
            }
        }
        i = i + 1;
    }
    proof {
        assert(lv.take(lines.len() as int) =~= lv);
    }
    placed
}

/// The pieces of a text between its line feeds; see [`split_lf`].
pub fn split_lf_exec(s: &str) -> (r: Vec<String>)
    ensures
        texts(r@) == split_lf(s@),
        r@.len() >= 1,
{
    let n = s.unicode_len();
    let mut pieces: Vec<String> = Vec::new();
    let mut start: usize = 0;
    let mut i: usize = 0;
    proof {
        assert(s@.take(0) =~= Seq::<char>::empty());
        assert(s@.subrange(0, 0) =~= Seq::<char>::empty());
        assert(texts(pieces@).push(s@.subrange(0, 0)) =~= split_lf(s@.take(0)));
    }
    while i < n
        invariant
            n == s@.len(),
            start <= i <= n,
            texts(pieces@).push(s@.subrange(start as int, i as int)) == split_lf(s@.take(i as int)),
        decreases n - i,
    {
        let c = s.get_char(i);
        proof {
            let t = s@.take(i as int + 1);
            assert(t.drop_last() =~= s@.take(i as int));
            assert(t.last() == c);
            lemma_split_lf_nonempty(s@.take(i as int));
        }
        if c == '\n' {
            pieces.push(String::from_str(s.substring_char(start, i)));
            start = i + 1;
            proof {
                assert(s@.subrange(start as int, i as int + 1) =~= Seq::<char>::empty());
                assert(texts(pieces@).push(s@.subrange(start as int, i as int + 1)) =~= split_lf(s@.take(i as int + 1)));
            }
        } else {
            proof {
                assert(s@.subrange(start as int, i as int + 1) =~= s@.subrange(start as int, i as int).push(c));
                assert(texts(pieces@).push(s@.subrange(start as int, i as int + 1)) =~= split_lf(s@.take(i as int + 1)));
            }
        }
        i = i + 1;
    }
    pieces.push(String::from_str(s.substring_char(start, n)));
    proof {
        assert(s@.take(n as int) =~= s@);
    }
    pieces
}

} // verus!
