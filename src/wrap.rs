//! Line wrapping: `textwrap` fills the text, then the result is cut into
//! lines, and a line that is still wider than the limit is cut between
//! characters so that every line fits.

use crate::width::{char_width_of, columns, display_width};
use vstd::prelude::*;
use vstd::std_specs::iter::IteratorSpec;
use vstd::utf8::{encode_utf8, encode_utf8_valid_utf8, valid_utf8};

verus! {

broadcast use vstd::string::group_string_axioms;

/// What `textwrap::fill` makes of `text` at `width` columns.
pub uninterp spec fn filled(text: Seq<char>, width: nat) -> Seq<char>;

/// Relies on `textwrap::fill` (textwrap 0.11): wraps at whitespace, breaks
/// longer words, and joins the lines with `'\n'`. Its result depends on the
/// text and the width alone.
#[verifier::external_body]
fn fill_text(text: &str, width: usize) -> (r: String)
    ensures
        r@ == filled(text@, width as nat),
{
    textwrap::fill(text, width)
}

/// Relies on `String::push`: appends one character.
#[verifier::external_body]
fn push_char(s: &mut String, c: char)
    ensures
        final(s)@ == old(s)@.push(c),
{
    s.push(c)
}

/// The views of a sequence of strings.
pub open spec fn views(v: Seq<String>) -> Seq<Seq<char>> {
    v.map_values(|s: String| s@)
}

/// The pieces of `s` between line feeds: one more than there are line feeds.
pub open spec fn split_at_newlines(s: Seq<char>) -> Seq<Seq<char>>
    decreases s.len(),
{
    if s.len() == 0 {
        seq![Seq::empty()]
    } else {
        let head = split_at_newlines(s.drop_last());
        if s.last() == '\n' {
            head.push(Seq::empty())
        } else {
            head.update(head.len() - 1, head.last().push(s.last()))
        }
    }
}

/// A line without the carriage return that ended it, if any.
pub open spec fn strip_cr(p: Seq<char>) -> Seq<char> {
    if p.len() > 0 && p.last() == '\r' {
        p.drop_last()
    } else {
        p
    }
}

/// The lines of `s`, as `str::lines` gives them: split at each `'\n'`, a
/// `'\r'` before it dropped, and no empty line after a final `'\n'`.
pub open spec fn text_lines(s: Seq<char>) -> Seq<Seq<char>> {
    let parts = split_at_newlines(s);
    let ended = parts.drop_last().map_values(|p: Seq<char>| strip_cr(p));
    if parts.last().len() == 0 {
        ended
    } else {
        ended.push(parts.last())
    }
}

/// Lays the characters of `rest` onto lines of `w` columns, after a current
/// line `cur` that takes `used` columns: a character joins the current line
/// when it fits there or the line is empty, and starts a new line otherwise.
pub open spec fn lay_out(rest: Seq<char>, cur: Seq<char>, used: nat, w: nat) -> Seq<Seq<char>>
    decreases rest.len(),
{
    if rest.len() == 0 {
        if cur.len() == 0 {
            seq![]
        } else {
            seq![cur]
        }
    } else {
        let c = rest[0];
        if cur.len() > 0 && used + columns(c) > w {
            seq![cur] + lay_out(rest.drop_first(), seq![c], columns(c), w)
        } else {
            lay_out(rest.drop_first(), cur.push(c), used + columns(c), w)
        }
    }
}

/// A line cut greedily into pieces of at most `w` columns; an empty line stays one empty line.
pub open spec fn hard_split(line: Seq<char>, w: nat) -> Seq<Seq<char>> {
    if line.len() == 0 {
        seq![line]
    } else {
        lay_out(line, Seq::empty(), 0, w)
    }
}

/// The lines of an already filled text, each cut to fit `w`; never none.
pub open spec fn fitted_lines(text: Seq<char>, w: nat) -> Seq<Seq<char>> {
    let ls = text_lines(text).flat_map(|l: Seq<char>| hard_split(l, w));
    if ls.len() == 0 {
        seq![Seq::empty()]
    } else {
        ls
    }
}

/// The lines that the wrapper gives for `text` at `w` columns.
pub open spec fn wrapped_lines(text: Seq<char>, w: nat) -> Seq<Seq<char>> {
    fitted_lines(filled(text, w), w)
}

proof fn lemma_split_nonempty(s: Seq<char>)
    ensures
        split_at_newlines(s).len() >= 1,
    decreases s.len(),
{
    if s.len() > 0 {
        lemma_split_nonempty(s.drop_last());
    }
}

proof fn lemma_views_push(v: Seq<String>, s: String)
    ensures
        views(v.push(s)) == views(v).push(s@),
{
    assert(views(v.push(s)) =~= views(v).push(s@));
}

/// Splits `s` into its lines as `str::lines` does.
fn split_lines(s: &str) -> (r: Vec<String>)
    ensures
        views(r@) == text_lines(s@),
{
    let mut parts: Vec<String> = Vec::new();
    let mut cur = String::new();
    let mut cr = false;
    let ghost mut seen: Seq<char> = Seq::empty();
    let chars = s.chars();
    assert(chars.remaining() == s@);
    for c in it: chars
        invariant
            it.seq() == s@,
            seen == s@.take(it.index() as int),
            split_at_newlines(seen).len() >= 1,
            views(parts@) == split_at_newlines(seen).drop_last().map_values(
                |p: Seq<char>| strip_cr(p),
            ),
            split_at_newlines(seen).last() == (if cr {
                cur@.push('\r')
            } else {
                cur@
            }),
            !cr ==> cur@.len() == 0 || cur@.last() != '\r',
    {
        assert(c == s@[it.index() as int]);
        proof {
            assert(s@.take(it.index() as int + 1).drop_last() =~= seen);
        }
        let ghost prev = split_at_newlines(seen);
        proof {
            seen = s@.take(it.index() as int + 1);
            lemma_split_nonempty(seen);
        }
        if c == '\n' {
            proof {
                lemma_views_push(parts@, cur);
                assert(strip_cr(prev.last()) == cur@);
                assert(split_at_newlines(seen).drop_last() =~= prev);
                assert(split_at_newlines(seen).drop_last().map_values(|p: Seq<char>| strip_cr(p))
                    =~= prev.drop_last().map_values(|p: Seq<char>| strip_cr(p)).push(cur@));
            }
            parts.push(cur);
            cur = String::new();
            cr = false;
        } else {
            if cr {
                push_char(&mut cur, '\r');
            }
            if c == '\r' {
                cr = true;
            } else {
                push_char(&mut cur, c);
                cr = false;
            }
            proof {
                assert(split_at_newlines(seen).drop_last() =~= prev.drop_last());
            }
        }
    }
    proof {
        assert(s@.take(s@.len() as int) =~= s@);
    }
    if cr {
        push_char(&mut cur, '\r');
    }
    if cur.as_str().is_empty() {
        proof {
            assert(split_at_newlines(s@).last() =~= cur@);
        }
    } else {
        proof {
            lemma_views_push(parts@, cur);
        }
        parts.push(cur);
    }
    parts
}

/// Columns that `c` takes inside a string.
fn char_columns(c: char) -> (r: usize)
    ensures
        r as nat == columns(c),
        r <= 2,
{
    match char_width_of(c) {
        Some(n) => n,
        None => 0,
    }
}

/// Appends to `out` the pieces of `line` cut to fit `w` columns.
fn push_pieces(line: &str, w: usize, out: &mut Vec<String>)
    ensures
        views(final(out)@) == views(old(out)@) + hard_split(line@, w as nat),
{
    if line.is_empty() {
        let empty = String::new();
        proof {
            lemma_views_push(out@, empty);
            assert(line@ =~= empty@);
            assert(views(out@) + hard_split(line@, w as nat) =~= views(out@).push(empty@));
        }
        out.push(empty);
        return;
    }
    let ghost start = views(out@);
    let mut cur = String::new();
    let mut used: usize = 0;
    let chars = line.chars();
    assert(chars.remaining() == line@);
    assert(line@.skip(0) =~= line@);
    for c in it: chars
        invariant
            it.seq() == line@,
            cur@.len() == 0 ==> used == 0,
            used <= w || used <= 2,
            start + hard_split(line@, w as nat) == views(out@) + lay_out(
                line@.skip(it.index()),
                cur@,
                used as nat,
                w as nat,
            ),
    {
        let ghost rest = line@.skip(it.index());
        proof {
            assert(rest[0] == c);
            assert(rest.drop_first() =~= line@.skip(it.index() + 1));
        }
        let n = char_columns(c);
        if !cur.as_str().is_empty() && (used > w || n > w - used) {
            let ghost done = cur@;
            proof {
                lemma_views_push(out@, cur);
            }
            out.push(cur);
            cur = String::new();
            push_char(&mut cur, c);
            used = n;
            proof {
                assert(cur@ =~= seq![c]);
                let tail = lay_out(rest.drop_first(), seq![c], columns(c), w as nat);
                assert(views(out@) + tail =~= views(out@).drop_last() + (seq![done] + tail));
            }
        } else {
            push_char(&mut cur, c);
            used = used + n;
        }
    }
    proof {
        assert(line@.skip(line@.len() as int) =~= Seq::<char>::empty());
    }
    if !cur.as_str().is_empty() {
        proof {
            lemma_views_push(out@, cur);
        }
        let ghost last = cur@;
        out.push(cur);
        proof {
            assert(views(out@) =~= views(out@).drop_last() + seq![last]);
        }
    } else {
        proof {
            assert(views(out@) + Seq::<Seq<char>>::empty() =~= views(out@));
        }
    }
}

/// Cuts an already filled text into lines of at most `max_width` columns:
/// the lines of `text` as `str::lines` gives them, each cut between
/// characters where it is still too wide, and one empty line where there is
/// none.
pub fn fit_lines(text: &str, max_width: usize) -> (r: Vec<String>)
    ensures
        views(r@) == fitted_lines(text@, max_width as nat),
{
    let lines = split_lines(text);
    let ghost f = |l: Seq<char>| hard_split(l, max_width as nat);
    let mut r: Vec<String> = Vec::new();
    let mut i: usize = 0;
    proof {
        assert(views(lines@).take(0).map_values(f) =~= Seq::<Seq<Seq<char>>>::empty());
        assert(views(r@) =~= Seq::<Seq<char>>::empty());
    }
    while i < lines.len()
        invariant
            i <= lines@.len(),
            views(lines@) == text_lines(text@),
            f == (|l: Seq<char>| hard_split(l, max_width as nat)),
            views(r@) == views(lines@).take(i as int).flat_map(f),
        decreases lines@.len() - i,
    {
        push_pieces(lines[i].as_str(), max_width, &mut r);
        proof {
            let vs = views(lines@);
            assert(vs[i as int] == lines@[i as int]@);
            assert(vs.take(i as int + 1).map_values(f) =~= vs.take(i as int).map_values(f).push(
                f(vs[i as int]),
            ));
            vs.take(i as int).map_values(f).lemma_flatten_push(f(vs[i as int]));
        }
        i += 1;
    }
    proof {
        assert(views(lines@).take(lines@.len() as int) =~= views(lines@));
    }
    if r.len() == 0 {
        let empty = String::new();
        proof {
            lemma_views_push(r@, empty);
            assert(views(r@).push(empty@) =~= seq![Seq::<char>::empty()]);
        }
        r.push(empty);
    }
    r
}

/// Wraps `text` into lines of at most `max_width` display columns: filled
/// by `textwrap`, then cut as `fit_lines` does.
pub fn wrap(text: &str, max_width: usize) -> (r: Vec<String>)
    ensures
        views(r@) == wrapped_lines(text@, max_width as nat),
{
    let filled_text = fill_text(text, max_width);
    fit_lines(filled_text.as_str(), max_width)
}

/// A line fits `w` columns, or is one character too wide for any line of `w` columns.
pub open spec fn fits(line: Seq<char>, w: nat) -> bool {
    display_width(line) <= w || (line.len() == 1 && columns(line[0]) > w)
}

proof fn lemma_width_push(s: Seq<char>, c: char)
    ensures
        display_width(s.push(c)) == display_width(s) + columns(c),
{
    assert(s.push(c).drop_last() =~= s);
}

proof fn lemma_lay_out_fits(rest: Seq<char>, cur: Seq<char>, used: nat, w: nat)
    requires
        used == display_width(cur),
        fits(cur, w),
    ensures
        forall|j: int|
            0 <= j < lay_out(rest, cur, used, w).len() ==> fits(
                #[trigger] lay_out(rest, cur, used, w)[j],
                w,
            ),
    decreases rest.len(),
{
    if rest.len() == 0 {
        if cur.len() > 0 {
            assert(seq![cur][0] == cur);
        }
    } else {
        let c = rest[0];
        lemma_width_push(Seq::empty(), c);
        lemma_width_push(cur, c);
        assert(Seq::<char>::empty().push(c) =~= seq![c]);
        assert(fits(seq![c], w));
        if cur.len() > 0 && used + columns(c) > w {
            lemma_lay_out_fits(rest.drop_first(), seq![c], columns(c), w);
            let tail = lay_out(rest.drop_first(), seq![c], columns(c), w);
            assert(lay_out(rest, cur, used, w) == seq![cur] + tail);
            assert forall|j: int| 0 <= j < (seq![cur] + tail).len() implies fits(
                #[trigger] (seq![cur] + tail)[j],
                w,
            ) by {
                if j > 0 {
                    assert((seq![cur] + tail)[j] == tail[j - 1]);
                }
            }
        } else {
            if cur.len() == 0 {
                assert(cur =~= Seq::<char>::empty());
            }
            assert(fits(cur.push(c), w));
            lemma_lay_out_fits(rest.drop_first(), cur.push(c), used + columns(c), w);
            assert(lay_out(rest, cur, used, w) == lay_out(rest.drop_first(), cur.push(c), used + columns(c), w));
        }
    }
}

proof fn lemma_flatten_prepend(x: Seq<char>, ss: Seq<Seq<char>>)
    ensures
        (seq![x] + ss).flatten() == x + ss.flatten(),
{
    let t = seq![x] + ss;
    assert(t.first() == x);
    assert(t.drop_first() =~= ss);
}

proof fn lemma_lay_out_rejoins(rest: Seq<char>, cur: Seq<char>, used: nat, w: nat)
    ensures
        lay_out(rest, cur, used, w).flatten() == cur + rest,
    decreases rest.len(),
{
    if rest.len() == 0 {
        if cur.len() == 0 {
            assert(cur + rest =~= Seq::<char>::empty());
        } else {
            lemma_flatten_prepend(cur, Seq::empty());
            assert(cur + rest =~= cur + Seq::<Seq<char>>::empty().flatten());
        }
    } else {
        let c = rest[0];
        if cur.len() > 0 && used + columns(c) > w {
            lemma_lay_out_rejoins(rest.drop_first(), seq![c], columns(c), w);
            lemma_flatten_prepend(cur, lay_out(rest.drop_first(), seq![c], columns(c), w));
            assert(seq![c] + rest.drop_first() =~= rest);
            assert(cur + (seq![c] + rest.drop_first()) =~= cur + rest);
        } else {
            lemma_lay_out_rejoins(rest.drop_first(), cur.push(c), used + columns(c), w);
            assert(cur.push(c) + rest.drop_first() =~= cur + rest);
        }
    }
}

proof fn lemma_hard_split_fits(line: Seq<char>, w: nat)
    ensures
        forall|j: int|
            0 <= j < hard_split(line, w).len() ==> fits(#[trigger] hard_split(line, w)[j], w),
{
    if line.len() > 0 {
        lemma_lay_out_fits(line, Seq::empty(), 0, w);
    }
}

proof fn lemma_flatten_all(ss: Seq<Seq<Seq<char>>>, w: nat)
    requires
        forall|i: int, j: int|
            0 <= i < ss.len() && 0 <= j < ss[i].len() ==> fits(#[trigger] ss[i][j], w),
    ensures
        forall|k: int| 0 <= k < ss.flatten().len() ==> fits(#[trigger] ss.flatten()[k], w),
    decreases ss.len(),
{
    if ss.len() > 0 {
        let rest = ss.drop_first();
        assert forall|i: int, j: int| 0 <= i < rest.len() && 0 <= j < rest[i].len() implies fits(
            #[trigger] rest[i][j],
            w,
        ) by {
            assert(rest[i] == ss[i + 1]);
        }
        lemma_flatten_all(rest, w);
        assert forall|k: int| 0 <= k < ss.flatten().len() implies fits(
            #[trigger] ss.flatten()[k],
            w,
        ) by {
            assert(ss.flatten() == ss.first() + rest.flatten());
            if k < ss.first().len() {
                assert(ss[0][k] == ss.flatten()[k]);
            } else {
                assert(ss.flatten()[k] == rest.flatten()[k - ss.first().len()]);
            }
        }
    }
}

/// Every line that `wrap` returns fits in `max_width` display columns, but
/// for a line that holds a single character wider than `max_width` (a
/// double-width character at width 1), which no cut can make fit.
pub proof fn lemma_wrapped_lines_fit(text: Seq<char>, max_width: nat)
    ensures
        forall|i: int|
            0 <= i < wrapped_lines(text, max_width).len() ==> fits(
                #[trigger] wrapped_lines(text, max_width)[i],
                max_width,
            ),
{
    let f = |l: Seq<char>| hard_split(l, max_width);
    let ls = text_lines(filled(text, max_width));
    let ss = ls.map_values(f);
    assert forall|i: int, j: int| 0 <= i < ss.len() && 0 <= j < ss[i].len() implies fits(
        #[trigger] ss[i][j],
        max_width,
    ) by {
        lemma_hard_split_fits(ls[i], max_width);
    }
    lemma_flatten_all(ss, max_width);
    if ss.flatten().len() == 0 {
        assert(display_width(Seq::<char>::empty()) == 0);
        assert(seq![Seq::<char>::empty()][0] == Seq::<char>::empty());
    }
}

/// The wrapper cuts only between characters: the pieces of each line of the
/// filled text, put back together, are that line, and every line that
/// `wrap` returns is well-formed UTF-8 once encoded.
pub proof fn lemma_wrapping_keeps_characters_whole(text: Seq<char>, max_width: nat)
    ensures
        forall|j: int|
            0 <= j < text_lines(filled(text, max_width)).len() ==> #[trigger] hard_split(
                text_lines(filled(text, max_width))[j],
                max_width,
            ).flatten() == text_lines(filled(text, max_width))[j],
        forall|i: int|
            0 <= i < wrapped_lines(text, max_width).len() ==> valid_utf8(
                encode_utf8(#[trigger] wrapped_lines(text, max_width)[i]),
            ),
{
    let ls = text_lines(filled(text, max_width));
    assert forall|j: int| 0 <= j < ls.len() implies #[trigger] hard_split(
        ls[j],
        max_width,
    ).flatten() == ls[j] by {
        if ls[j].len() == 0 {
            lemma_flatten_prepend(ls[j], Seq::empty());
            assert(ls[j] + Seq::<Seq<char>>::empty().flatten() =~= ls[j]);
        } else {
            lemma_lay_out_rejoins(ls[j], Seq::empty(), 0, max_width);
            assert(Seq::<char>::empty() + ls[j] =~= ls[j]);
        }
    }
    assert forall|i: int| 0 <= i < wrapped_lines(text, max_width).len() implies valid_utf8(
        encode_utf8(#[trigger] wrapped_lines(text, max_width)[i]),
    ) by {
        encode_utf8_valid_utf8(wrapped_lines(text, max_width)[i]);
    }
}

} // verus!
