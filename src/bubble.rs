//! The bubble around the text: its width is that of the widest line, every
//! line is padded to it, and the border glyphs depend on the number of lines
//! and on the line's position.

use crate::buffer::{
    hand_over, lemma_encode_extend, put_char, put_repeat, put_str, repeat, stage_new, staged,
    Stage,
};
use crate::figure::{figure, put_figure, Eyes, Mode, CREST, FACE_LEFT, FACE_RIGHT, LEGS, MOUTH};
use crate::width::{
    columns, display_width, lemma_width_concat, lemma_width_printable_ascii, str_width,
};
use crate::wrap::views;
use vstd::prelude::*;
use vstd::utf8::encode_utf8;

verus! {

/// The width of the box: that of its widest line, 0 for no lines.
pub open spec fn box_width(lines: Seq<Seq<char>>) -> nat
    decreases lines.len(),
{
    if lines.len() == 0 {
        0
    } else {
        let a = box_width(lines.drop_last());
        let b = display_width(lines.last());
        if a >= b {
            a
        } else {
            b
        }
    }
}

/// The top border: a space, then `w + 2` underscores, then the end of the line.
pub open spec fn top_border(w: nat) -> Seq<char> {
    seq![' '] + repeat('_', w + 2) + seq!['\n']
}

/// The bottom border: a space, then `w + 2` dashes; the figure ends its line.
pub open spec fn bottom_border(w: nat) -> Seq<char> {
    seq![' '] + repeat('-', w + 2)
}

/// The left edge of line `i` of `n`.
pub open spec fn left_edge(n: nat, i: nat) -> Seq<char> {
    if n == 1 {
        seq!['<', ' ']
    } else if i == 0 {
        seq!['/', ' ']
    } else if i + 1 == n {
        seq!['\\', ' ']
    } else {
        seq!['|', ' ']
    }
}

/// The right edge of line `i` of `n`, with the end of the line.
pub open spec fn right_edge(n: nat, i: nat) -> Seq<char> {
    if n == 1 {
        seq![' ', '>', '\n']
    } else if i == 0 {
        seq![' ', '\\', '\n']
    } else if i + 1 == n {
        seq![' ', '/', '\n']
    } else {
        seq![' ', '|', '\n']
    }
}

/// Row `i` of the box: its edges around the line, padded with spaces to `w` columns.
pub open spec fn body_row(lines: Seq<Seq<char>>, i: int, w: nat) -> Seq<char> {
    left_edge(lines.len(), i as nat) + lines[i] + repeat(' ', (w - display_width(lines[i])) as nat)
        + right_edge(lines.len(), i as nat)
}

/// All the rows of the box, in order.
pub open spec fn body(lines: Seq<Seq<char>>, w: nat) -> Seq<char> {
    Seq::new(lines.len(), |i: int| body_row(lines, i, w)).flatten()
}

/// The bubble: top border, rows, bottom border.
pub open spec fn bubble(lines: Seq<Seq<char>>) -> Seq<char> {
    let w = box_width(lines);
    top_border(w) + body(lines, w) + bottom_border(w)
}

/// The whole picture: the bubble around `lines`, then Ferris.
pub open spec fn picture(lines: Seq<Seq<char>>, mode: Mode, eyes: Eyes) -> Seq<char> {
    bubble(lines) + figure(mode, eyes)
}

/// No line is wider than the box.
pub proof fn lemma_box_width_bounds(lines: Seq<Seq<char>>, i: int)
    requires
        0 <= i < lines.len(),
    ensures
        display_width(lines[i]) <= box_width(lines),
    decreases lines.len(),
{
    if i < lines.len() - 1 {
        lemma_box_width_bounds(lines.drop_last(), i);
    }
}

/// The width of the widest of `lines` in display columns, 0 for none.
pub fn longest_line(lines: &Vec<String>) -> (r: usize)
    ensures
        r as nat == box_width(views(lines@)),
{
    let mut best: usize = 0;
    let mut i: usize = 0;
    while i < lines.len()
        invariant
            i <= lines@.len(),
            best as nat == box_width(views(lines@).take(i as int)),
        decreases lines@.len() - i,
    {
        let n = str_width(lines[i].as_str());
        proof {
            assert(views(lines@).take(i as int + 1).drop_last() =~= views(lines@).take(i as int));
            assert(views(lines@).take(i as int + 1).last() == lines@[i as int]@);
        }
        if n > best {
            best = n;
        }
        i += 1;
    }
    assert(views(lines@).take(lines@.len() as int) =~= views(lines@));
    best
}

/// Appends row `i` of the box of width `w`.
fn put_row(buf: &mut Stage, lines: &Vec<String>, i: usize, w: usize)
    requires
        i < lines@.len(),
        w as nat == box_width(views(lines@)),
    ensures
        staged(*final(buf)) == staged(*old(buf)) + encode_utf8(
            body_row(views(lines@), i as int, w as nat),
        ),
{
    let ghost ls = views(lines@);
    let ghost n = lines@.len() as nat;
    let ghost start = staged(*buf);
    let line = lines[i].as_str();
    assert(ls[i as int] == line@);
    let count = lines.len();
    let (l, r) = if count == 1 {
        ('<', '>')
    } else if i == 0 {
        ('/', '\\')
    } else if i + 1 == count {
        ('\\', '/')
    } else {
        ('|', '|')
    };
    put_char(buf, l);
    put_char(buf, ' ');
    proof {
        lemma_encode_extend(start, seq![l], seq![' ']);
        assert(start + encode_utf8(Seq::<char>::empty()) =~= start);
        lemma_encode_extend(start, Seq::empty(), seq![l]);
        assert(Seq::<char>::empty() + seq![l] =~= seq![l]);
        assert(seq![l] + seq![' '] =~= left_edge(n, i as nat));
    }
    put_str(buf, line);
    proof {
        lemma_encode_extend(start, left_edge(n, i as nat), line@);
    }
    let k = str_width(line);
    proof {
        lemma_box_width_bounds(ls, i as int);
    }
    put_repeat(buf, ' ', w - k);
    let ghost acc = left_edge(n, i as nat) + line@ + repeat(' ', (w - k) as nat);
    proof {
        lemma_encode_extend(start, left_edge(n, i as nat) + line@, repeat(' ', (w - k) as nat));
    }
    put_char(buf, ' ');
    put_char(buf, r);
    put_char(buf, '\n');
    proof {
        lemma_encode_extend(start, acc, seq![' ']);
        lemma_encode_extend(start, acc + seq![' '], seq![r]);
        lemma_encode_extend(start, acc + seq![' '] + seq![r], seq!['\n']);
        assert(seq![' '] + seq![r] + seq!['\n'] =~= right_edge(n, i as nat));
        assert(acc + seq![' '] + seq![r] + seq!['\n'] =~= acc + right_edge(n, i as nat));
    }
}

/// Appends to `out` the picture of `lines` in a bubble, with Ferris below
/// it as `mode` and `eyes` choose, handing the bytes over in one piece.
pub fn render(lines: &Vec<String>, mode: Mode, eyes: Eyes, out: &mut Vec<u8>)
    ensures
        final(out)@ == old(out)@ + encode_utf8(picture(views(lines@), mode, eyes)),
{
    let ghost ls = views(lines@);
    let w = longest_line(lines);
    let mut buf = stage_new();
    let ghost start = staged(buf);
    // top border
    put_char(&mut buf, ' ');
    put_repeat(&mut buf, '_', 2);
    put_repeat(&mut buf, '_', w);
    put_char(&mut buf, '\n');
    proof {
        assert(start + encode_utf8(Seq::<char>::empty()) =~= start);
        lemma_encode_extend(start, Seq::empty(), seq![' ']);
        lemma_encode_extend(start, seq![' '], repeat('_', 2));
        lemma_encode_extend(start, seq![' '] + repeat('_', 2), repeat('_', w as nat));
        lemma_encode_extend(start, seq![' '] + repeat('_', 2) + repeat('_', w as nat), seq!['\n']);
        assert(Seq::<char>::empty() + seq![' '] =~= seq![' ']);
        assert(seq![' '] + repeat('_', 2) + repeat('_', w as nat) + seq!['\n'] =~= top_border(
            w as nat,
        ));
    }
    // rows
    let ghost rows = |i: int| body_row(ls, i, w as nat);
    let mut i: usize = 0;
    assert(Seq::new(0, rows).flatten() =~= Seq::<char>::empty());
    assert(top_border(w as nat) + Seq::<char>::empty() =~= top_border(w as nat));
    while i < lines.len()
        invariant
            i <= lines@.len(),
            ls == views(lines@),
            w as nat == box_width(ls),
            rows == (|i: int| body_row(ls, i, w as nat)),
            staged(buf) == start + encode_utf8(
                top_border(w as nat) + Seq::new(i as nat, rows).flatten(),
            ),
        decreases lines@.len() - i,
    {
        put_row(&mut buf, lines, i, w);
        proof {
            let done = Seq::new(i as nat, rows);
            assert(Seq::new((i + 1) as nat, rows) =~= done.push(rows(i as int)));
            done.lemma_flatten_push(rows(i as int));
            lemma_encode_extend(start, top_border(w as nat) + done.flatten(), rows(i as int));
            assert(top_border(w as nat) + done.flatten() + rows(i as int) =~= top_border(w as nat)
                + Seq::new((i + 1) as nat, rows).flatten());
        }
        i += 1;
    }
    let ghost upper = top_border(w as nat) + body(ls, w as nat);
    assert(Seq::new(lines@.len() as nat, rows) =~= Seq::new(ls.len(), |i: int| body_row(ls, i, w as nat)));
    // bottom border
    put_char(&mut buf, ' ');
    put_repeat(&mut buf, '-', 2);
    put_repeat(&mut buf, '-', w);
    proof {
        lemma_encode_extend(start, upper, seq![' ']);
        lemma_encode_extend(start, upper + seq![' '], repeat('-', 2));
        lemma_encode_extend(start, upper + seq![' '] + repeat('-', 2), repeat('-', w as nat));
        assert(upper + seq![' '] + repeat('-', 2) + repeat('-', w as nat) =~= upper + bottom_border(
            w as nat,
        ));
    }
    put_figure(&mut buf, mode, eyes);
    proof {
        lemma_encode_extend(start, bubble(ls), figure(mode, eyes));
        assert(start =~= Seq::<u8>::empty());
        assert(Seq::<u8>::empty() + encode_utf8(picture(ls, mode, eyes)) =~= encode_utf8(
            picture(ls, mode, eyes),
        ));
    }
    hand_over(&buf, out);
}

proof fn lemma_width_ends_with_newline(s: Seq<char>)
    requires
        forall|i: int| 0 <= i < s.len() ==> 0x20 <= #[trigger] (s[i] as u32) < 0x7f,
    ensures
        display_width(s.push('\n')) == s.len(),
{
    assert(s.push('\n').drop_last() =~= s);
    assert(columns('\n') == 0);
    lemma_width_printable_ascii(s);
}

/// Every row of the box takes the width of the box plus four columns, two
/// for each edge, whichever line is the widest: the padding makes up the rest.
pub proof fn lemma_rows_equally_wide(lines: Seq<Seq<char>>, i: int)
    requires
        0 <= i < lines.len(),
    ensures
        display_width(body_row(lines, i, box_width(lines))) == box_width(lines) + 4,
{
    let n = lines.len();
    let w = box_width(lines);
    let left = left_edge(n, i as nat);
    let pad = repeat(' ', (w - display_width(lines[i])) as nat);
    let right = right_edge(n, i as nat);
    lemma_box_width_bounds(lines, i);
    lemma_width_printable_ascii(left);
    lemma_width_printable_ascii(pad);
    let g = right[1];
    assert(right =~= seq![' ', g].push('\n'));
    lemma_width_ends_with_newline(seq![' ', g]);
    lemma_width_concat(left, lines[i]);
    lemma_width_concat(left + lines[i], pad);
    lemma_width_concat(left + lines[i] + pad, right);
}

/// The top and the bottom border take the same columns: the width of the
/// box plus three, the leading space included.
pub proof fn lemma_borders_equally_wide(lines: Seq<Seq<char>>)
    ensures
        display_width(top_border(box_width(lines))) == box_width(lines) + 3,
        display_width(bottom_border(box_width(lines))) == box_width(lines) + 3,
{
    let w = box_width(lines);
    let bottom = seq![' '] + repeat('-', w + 2);
    lemma_width_printable_ascii(bottom);
    let top = seq![' '] + repeat('_', w + 2);
    lemma_width_ends_with_newline(top);
    assert(top.push('\n') =~= top_border(w));
}

/// A box of one line draws it between `<` and `>`, never with the glyphs
/// of the first, middle or last line of a taller box.
pub proof fn lemma_single_line_angles(lines: Seq<Seq<char>>)
    requires
        lines.len() == 1,
    ensures
        body(lines, box_width(lines)) == seq!['<', ' '] + lines[0] + repeat(
            ' ',
            (box_width(lines) - display_width(lines[0])) as nat,
        ) + seq![' ', '>', '\n'],
{
    let rows = Seq::new(lines.len(), |i: int| body_row(lines, i, box_width(lines)));
    rows.lemma_flatten_one_element();
}

/// The figure as the parts that stay and the glyphs that vary.
proof fn lemma_figure_parts(mode: Mode, eyes: Eyes)
    ensures
        figure(mode, eyes) == (seq!['\n'] + repeat(' ', 8)) + seq![mode.trail()] + (seq!['\n']
            + repeat(' ', 9)) + seq![mode.trail()] + (seq!['\n'] + CREST@ + FACE_LEFT@) + seq![
            eyes.glyph(),
        ] + seq![' '] + seq![eyes.glyph()] + (FACE_RIGHT@ + MOUTH@ + LEGS@),
{
    let t = mode.trail();
    let e = eyes.glyph();
    assert(figure(mode, eyes) =~= (seq!['\n'] + repeat(' ', 8)) + seq![t] + (seq!['\n'] + repeat(
        ' ',
        9,
    )) + seq![t] + (seq!['\n'] + CREST@ + FACE_LEFT@) + seq![e] + seq![' '] + seq![e] + (
    FACE_RIGHT@ + MOUTH@ + LEGS@));
}

/// Thinking and saying the same text draw the same picture but for the two
/// glyphs of the trail, nine and twenty characters after the bubble.
pub proof fn lemma_think_differs_from_say_in_trail(lines: Seq<Seq<char>>, eyes: Eyes)
    ensures
        picture(lines, Mode::Say, eyes).len() == picture(lines, Mode::Think, eyes).len(),
        forall|k: int|
            0 <= k < picture(lines, Mode::Say, eyes).len() ==> (picture(lines, Mode::Say, eyes)[k]
                != picture(lines, Mode::Think, eyes)[k] <==> (k == bubble(lines).len() + 9 || k
                == bubble(lines).len() + 20)),
{
    lemma_figure_parts(Mode::Say, eyes);
    lemma_figure_parts(Mode::Think, eyes);
    let b = bubble(lines);
    let say = picture(lines, Mode::Say, eyes);
    let think = picture(lines, Mode::Think, eyes);
    let head = seq!['\n'] + repeat(' ', 8);
    let mid = seq!['\n'] + repeat(' ', 9);
    let rest = (seq!['\n'] + CREST@ + FACE_LEFT@) + seq![eyes.glyph()] + seq![' '] + seq![
        eyes.glyph(),
    ] + (FACE_RIGHT@ + MOUTH@ + LEGS@);
    assert(say =~= b + head + seq!['\\'] + mid + seq!['\\'] + rest);
    assert(think =~= b + head + seq!['o'] + mid + seq!['o'] + rest);
    assert forall|k: int| 0 <= k < say.len() implies (say[k] != think[k] <==> (k == b.len() + 9
        || k == b.len() + 20)) by {
        if k < b.len() + 9 {
            assert(say[k] == (b + head)[k]);
            assert(think[k] == (b + head)[k]);
        } else if k > b.len() + 20 {
            assert(say[k] == rest[k - b.len() - 21]);
            assert(think[k] == rest[k - b.len() - 21]);
        } else if k != b.len() + 9 && k != b.len() + 20 {
            assert(say[k] == mid[k - b.len() - 10]);
            assert(think[k] == mid[k - b.len() - 10]);
        }
    }
}

/// Two moods draw the same picture but for the two eyes, which stand
/// `CREST` and `FACE_LEFT` after the two lines of trail, and one apart.
pub proof fn lemma_eyes_differ_only_in_eyes(lines: Seq<Seq<char>>, mode: Mode, a: Eyes, b: Eyes)
    ensures
        picture(lines, mode, a).len() == picture(lines, mode, b).len(),
        forall|k: int|
            0 <= k < picture(lines, mode, a).len() && picture(lines, mode, a)[k] != picture(
                lines,
                mode,
                b,
            )[k] ==> (k == bubble(lines).len() + 22 + CREST@.len() + FACE_LEFT@.len() || k
                == bubble(lines).len() + 24 + CREST@.len() + FACE_LEFT@.len()),
        picture(lines, mode, a)[(bubble(lines).len() + 22 + CREST@.len() + FACE_LEFT@.len()) as int]
            == a.glyph(),
        picture(lines, mode, a)[(bubble(lines).len() + 24 + CREST@.len() + FACE_LEFT@.len()) as int]
            == a.glyph(),
{
    lemma_figure_parts(mode, a);
    lemma_figure_parts(mode, b);
    let t = mode.trail();
    let bub = bubble(lines);
    let pa = picture(lines, mode, a);
    let pb = picture(lines, mode, b);
    let front = bub + (seq!['\n'] + repeat(' ', 8)) + seq![t] + (seq!['\n'] + repeat(' ', 9))
        + seq![t] + (seq!['\n'] + CREST@ + FACE_LEFT@);
    let back = FACE_RIGHT@ + MOUTH@ + LEGS@;
    let e = front.len();
    assert(e == bub.len() + 22 + CREST@.len() + FACE_LEFT@.len());
    assert(pa =~= front + seq![a.glyph()] + seq![' '] + seq![a.glyph()] + back);
    assert(pb =~= front + seq![b.glyph()] + seq![' '] + seq![b.glyph()] + back);
    assert forall|k: int| 0 <= k < pa.len() && pa[k] != pb[k] implies (k == e || k == e + 2) by {
        if k < e {
            assert(pa[k] == front[k]);
            assert(pb[k] == front[k]);
        } else if k > e + 2 {
            assert(pa[k] == back[k - e - 3]);
            assert(pb[k] == back[k - e - 3]);
        }
    }
}

} // verus!
