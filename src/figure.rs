//! Ferris, drawn below the bubble: the connector that leads to it depends
//! on the kind of bubble, and its eyes on the mood.

use crate::buffer::{lemma_encode_extend, put_char, put_repeat, put_str, repeat, staged, Stage};
use vstd::prelude::*;
use vstd::utf8::encode_utf8;

verus! {

/// Whether Ferris speaks or thinks the text.
#[derive(Clone, Copy, Debug, PartialEq, Eq, Structural)]
pub enum Mode {
    Say,
    Think,
}

/// The expression on Ferris's face: one glyph, drawn for both eyes.
#[derive(Clone, Copy, Debug, PartialEq, Eq, Structural)]
pub enum Eyes {
    Regular,
    Greedy,
    Youthful,
    Paranoid,
    Dead,
    Tired,
    Crying,
    Happy,
}

impl Mode {
    /// The glyph of the trail from the bubble to Ferris: diagonal strokes
    /// for speech, small circles for thought.
    pub open spec fn trail(self) -> char {
        match self {
            Mode::Say => '\\',
            Mode::Think => 'o',
        }
    }

    /// The trail glyph.
    pub fn trail_char(&self) -> (c: char)
        ensures
            c == self.trail(),
    {
        match self {
            Mode::Say => '\\',
            Mode::Think => 'o',
        }
    }
}

impl Eyes {
    /// The glyph drawn for each eye.
    pub open spec fn glyph(self) -> char {
        match self {
            Eyes::Regular => 'o',
            Eyes::Greedy => '$',
            Eyes::Youthful => '.',
            Eyes::Paranoid => '@',
            Eyes::Dead => 'x',
            Eyes::Tired => '-',
            Eyes::Crying => 'T',
            Eyes::Happy => '^',
        }
    }

    /// The eye glyph.
    pub fn glyph_char(&self) -> (c: char)
        ensures
            c == self.glyph(),
    {
        match self {
            Eyes::Regular => 'o',
            Eyes::Greedy => '$',
            Eyes::Youthful => '.',
            Eyes::Paranoid => '@',
            Eyes::Dead => 'x',
            Eyes::Tired => '-',
            Eyes::Crying => 'T',
            Eyes::Happy => '^',
        }
    }
}

/// The crest on top of Ferris's shell.
pub const CREST: &'static str = "            _~^~^~_\n";

/// Ferris's claw and shell to the left of the eyes.
pub const FACE_LEFT: &'static str = "        \\) /  ";

/// Ferris's shell and claw to the right of the eyes.
pub const FACE_RIGHT: &'static str = "  \\ (/\n";

/// Ferris's mouth.
pub const MOUTH: &'static str = "          '_   -   _'\n";

/// Ferris's legs.
pub const LEGS: &'static str = "          / '-----' \\\n";

/// What follows the bottom border: the end of its line, two lines of trail,
/// and Ferris with the chosen eyes.
pub open spec fn figure(mode: Mode, eyes: Eyes) -> Seq<char> {
    let t = mode.trail();
    let e = eyes.glyph();
    seq!['\n'] + repeat(' ', 8) + seq![t, '\n'] + repeat(' ', 9) + seq![t, '\n'] + CREST@
        + FACE_LEFT@ + seq![e, ' ', e] + FACE_RIGHT@ + MOUTH@ + LEGS@
}

/// Appends the figure for `mode` and `eyes`.
pub(crate) fn put_figure(buf: &mut Stage, mode: Mode, eyes: Eyes)
    ensures
        staged(*final(buf)) == staged(*old(buf)) + encode_utf8(figure(mode, eyes)),
{
    let t = mode.trail_char();
    let e = eyes.glyph_char();
    let ghost start = staged(*buf);
    let ghost mut acc: Seq<char> = Seq::empty();
    assert(start + encode_utf8(acc) =~= start);
    put_char(buf, '\n');
    proof {
        lemma_encode_extend(start, acc, seq!['\n']);
        acc = acc + seq!['\n'];
    }
    put_repeat(buf, ' ', 8);
    proof {
        lemma_encode_extend(start, acc, repeat(' ', 8));
        acc = acc + repeat(' ', 8);
    }
    put_char(buf, t);
    put_char(buf, '\n');
    proof {
        assert(seq![t] + seq!['\n'] =~= seq![t, '\n']);
        lemma_encode_extend(start, acc, seq![t]);
        lemma_encode_extend(start, acc + seq![t], seq!['\n']);
        assert(acc + seq![t] + seq!['\n'] =~= acc + seq![t, '\n']);
        acc = acc + seq![t, '\n'];
    }
    put_repeat(buf, ' ', 9);
    proof {
        lemma_encode_extend(start, acc, repeat(' ', 9));
        acc = acc + repeat(' ', 9);
    }
    put_char(buf, t);
    put_char(buf, '\n');
    proof {
        lemma_encode_extend(start, acc, seq![t]);
        lemma_encode_extend(start, acc + seq![t], seq!['\n']);
        assert(acc + seq![t] + seq!['\n'] =~= acc + seq![t, '\n']);
        acc = acc + seq![t, '\n'];
    }
    put_str(buf, CREST);
    proof {
        lemma_encode_extend(start, acc, CREST@);
        acc = acc + CREST@;
    }
    put_str(buf, FACE_LEFT);
    proof {
        lemma_encode_extend(start, acc, FACE_LEFT@);
        acc = acc + FACE_LEFT@;
    }
    put_char(buf, e);
    put_char(buf, ' ');
    put_char(buf, e);
    proof {
        lemma_encode_extend(start, acc, seq![e]);
        lemma_encode_extend(start, acc + seq![e], seq![' ']);
        lemma_encode_extend(start, acc + seq![e] + seq![' '], seq![e]);
        assert(acc + seq![e] + seq![' '] + seq![e] =~= acc + seq![e, ' ', e]);
        acc = acc + seq![e, ' ', e];
    }
    put_str(buf, FACE_RIGHT);
    proof {
        lemma_encode_extend(start, acc, FACE_RIGHT@);
        acc = acc + FACE_RIGHT@;
    }
    put_str(buf, MOUTH);
    proof {
        lemma_encode_extend(start, acc, MOUTH@);
        acc = acc + MOUTH@;
    }
    put_str(buf, LEGS);
    proof {
        lemma_encode_extend(start, acc, LEGS@);
        acc = acc + LEGS@;
        assert(acc == figure(mode, eyes));
    }
}

} // verus!
