use vstd::prelude::*;
use vstd::arithmetic::div_mod::{
    lemma_fundamental_div_mod,
    lemma_fundamental_div_mod_converse,
    lemma_mod_bound,
};

verus! {

/// Cents in one octave.
pub const OCTAVE: i64 = 1200;

/// An offset of whole octaves, in cents, that makes every `i64` position
/// non-negative, so that floor division can be done on unsigned values.
const OCTAVE_OFFSET: u128 = 86469112845513523200;

/// `OCTAVE_OFFSET` in semitones.
const NOTE_OFFSET: u128 = 864691128455135232;

/// `OCTAVE_OFFSET` in octaves.
const OCTAVES_IN_OFFSET: u128 = 72057594037927936;

/// The MIDI note nearest to a pitch `cents` above MIDI note 0; a pitch
/// exactly between two notes goes to the upper one.
pub open spec fn nearest_note(cents: int) -> int {
    (cents + 50) / 100
}

/// How far a pitch is from its nearest note, in cents: in `[-50, 50)`.
pub open spec fn cents_off(cents: int) -> int {
    cents - 100 * nearest_note(cents)
}

/// The pitch class of a MIDI note, `0` for C up to `11` for B.
pub open spec fn pitch_class(note: int) -> int {
    note % 12
}

/// The octave of a MIDI note, where note 0 is C in octave -1.
pub open spec fn octave_of(note: int) -> int {
    note / 12 - 1
}

/// The name of a pitch class.
pub open spec fn class_name(class: int) -> Seq<char> {
    if class == 0 {
        seq!['C']
    } else if class == 1 {
        seq!['C', '\u{266F}']
    } else if class == 2 {
        seq!['D']
    } else if class == 3 {
        seq!['E', '\u{266D}']
    } else if class == 4 {
        seq!['E']
    } else if class == 5 {
        seq!['F']
    } else if class == 6 {
        seq!['F', '\u{266F}']
    } else if class == 7 {
        seq!['G']
    } else if class == 8 {
        seq!['G', '\u{266F}']
    } else if class == 9 {
        seq!['A']
    } else if class == 10 {
        seq!['B', '\u{266D}']
    } else {
        seq!['B']
    }
}

/// The character of a decimal digit.
pub open spec fn digit_char(d: int) -> char {
    if d == 0 {
        '0'
    } else if d == 1 {
        '1'
    } else if d == 2 {
        '2'
    } else if d == 3 {
        '3'
    } else if d == 4 {
        '4'
    } else if d == 5 {
        '5'
    } else if d == 6 {
        '6'
    } else if d == 7 {
        '7'
    } else if d == 8 {
        '8'
    } else {
        '9'
    }
}

/// The decimal digits of a natural number, without leading zeros.
pub open spec fn digits(n: nat) -> Seq<char>
    decreases n,
{
    if n < 10 {
        seq![digit_char(n as int)]
    } else {
        digits(n / 10) + seq![digit_char(n as int % 10)]
    }
}

/// An integer in decimal, with a leading `-` when negative.
pub open spec fn decimal(n: int) -> Seq<char> {
    if n < 0 {
        seq!['-'] + digits((-n) as nat)
    } else {
        digits(n as nat)
    }
}

/// The display name of a pitch: the name of its nearest note's class, padded
/// to two characters, then that note's octave.
pub open spec fn pitch_label(cents: int) -> Seq<char> {
    let note = nearest_note(cents);
    padded_class_name(pitch_class(note)) + decimal(octave_of(note))
}

/// The name of a pitch class, padded with a space to two characters.
pub open spec fn padded_class_name(class: int) -> Seq<char> {
    let name = class_name(class);
    if name.len() < 2 {
        name + seq![' ']
    } else {
        name
    }
}

/// The padded name of a pitch class below twelve.
fn padded_class_name_str(class: u128) -> (r: &'static str)
    requires
        class < 12,
    ensures
        r@ == padded_class_name(class as int),
{
    proof {
        reveal_strlit("C ");
        reveal_strlit("C\u{266F}");
        reveal_strlit("D ");
        reveal_strlit("E\u{266D}");
        reveal_strlit("E ");
        reveal_strlit("F ");
        reveal_strlit("F\u{266F}");
        reveal_strlit("G ");
        reveal_strlit("G\u{266F}");
        reveal_strlit("A ");
        reveal_strlit("B\u{266D}");
        reveal_strlit("B ");
    }
    let r = if class == 0 {
        "C "
    } else if class == 1 {
        "C\u{266F}"
    } else if class == 2 {
        "D "
    } else if class == 3 {
        "E\u{266D}"
    } else if class == 4 {
        "E "
    } else if class == 5 {
        "F "
    } else if class == 6 {
        "F\u{266F}"
    } else if class == 7 {
        "G "
    } else if class == 8 {
        "G\u{266F}"
    } else if class == 9 {
        "A "
    } else if class == 10 {
        "B\u{266D}"
    } else {
        "B "
    };
    assert(r@ =~= padded_class_name(class as int));
    r
}

/// The character of a decimal digit, as a string.
fn digit_str(d: u64) -> (r: &'static str)
    requires
        d < 10,
    ensures
        r@ == seq![digit_char(d as int)],
{
    proof {
        reveal_strlit("0");
        reveal_strlit("1");
        reveal_strlit("2");
        reveal_strlit("3");
        reveal_strlit("4");
        reveal_strlit("5");
        reveal_strlit("6");
        reveal_strlit("7");
        reveal_strlit("8");
        reveal_strlit("9");
    }
    let r = if d == 0 {
        "0"
    } else if d == 1 {
        "1"
    } else if d == 2 {
        "2"
    } else if d == 3 {
        "3"
    } else if d == 4 {
        "4"
    } else if d == 5 {
        "5"
    } else if d == 6 {
        "6"
    } else if d == 7 {
        "7"
    } else if d == 8 {
        "8"
    } else {
        "9"
    };
    assert(r@ =~= seq![digit_char(d as int)]);
    r
}

/// Appends the decimal digits of `n`.
fn push_digits(s: &mut String, n: u64)
    ensures
        final(s)@ == old(s)@ + digits(n as nat),
    decreases n,
{
    if n >= 10 {
        push_digits(s, n / 10);
    }
    s.append(digit_str(n % 10));
    proof {
        if n >= 10 {
            assert(final(s)@ =~= old(s)@ + digits(n as nat));
        }
    }
}

proof fn lemma_shifted_div(x: int, k: int, d: int)
    requires
        d > 0,
    ensures
        (x + k * d) / d == x / d + k,
        (x + k * d) % d == x % d,
{
    lemma_fundamental_div_mod(x, d);
    lemma_mod_bound(x, d);
    assert((x / d + k) * d == d * (x / d) + k * d) by (nonlinear_arith);
    lemma_fundamental_div_mod_converse(x + k * d, d, x / d + k, x % d);
}

/// Shifting a pitch up an octave keeps its cents error and its pitch class,
/// and raises its octave by one.
pub proof fn octave_shift_keeps_cents_error(cents: int)
    ensures
        cents_off(cents + OCTAVE) == cents_off(cents),
        nearest_note(cents + OCTAVE) == nearest_note(cents) + 12,
        pitch_class(nearest_note(cents + OCTAVE)) == pitch_class(nearest_note(cents)),
        octave_of(nearest_note(cents + OCTAVE)) == octave_of(nearest_note(cents)) + 1,
{
    lemma_shifted_div(cents + 50, 12, 100);
    lemma_shifted_div(nearest_note(cents), 1, 12);
}

/// A musical pitch, as its distance in cents above MIDI note 0 (C in octave
/// -1): one hundred times its continuous MIDI number.
#[derive(Clone, Copy, Debug, PartialEq, Eq, Structural)]
pub struct Pitch {
    pub cents: i64,
}

impl Pitch {
    /// The pitch `cents` above MIDI note 0.
    pub fn new(cents: i64) -> (p: Pitch)
        ensures
            p.cents == cents,
    {
        Pitch { cents }
    }

    /// The nearest MIDI note, plus `NOTE_OFFSET`.
    fn shifted_note(&self) -> (r: u128)
        ensures
            r == nearest_note(self.cents as int) + NOTE_OFFSET,
    {
        let shifted = (self.cents as i128 + 50 + OCTAVE_OFFSET as i128) as u128;
        proof {
            lemma_shifted_div(self.cents + 50, NOTE_OFFSET as int, 100);
        }
        shifted / 100
    }

    /// The MIDI number of the nearest note.
    pub fn nearest_note(&self) -> (r: i64)
        ensures
            r == nearest_note(self.cents as int),
    {
        (self.shifted_note() as i128 - NOTE_OFFSET as i128) as i64
    }

    /// The distance from the nearest note in cents, in `[-50, 50)`.
    pub fn cents_error(&self) -> (r: i64)
        ensures
            r == cents_off(self.cents as int),
            -50 <= r < 50,
    {
        let shifted = (self.cents as i128 + 50 + OCTAVE_OFFSET as i128) as u128;
        proof {
            lemma_shifted_div(self.cents + 50, NOTE_OFFSET as int, 100);
            lemma_fundamental_div_mod(self.cents + 50, 100);
        }
        (shifted % 100) as i64 - 50
    }

    /// The display name: the nearest note's class, padded to two
    /// characters, then its octave, as in `"A 4"` or `"C\u{266F}-1"`.
    pub fn name(&self) -> (r: String)
        ensures
            r@ == pitch_label(self.cents as int),
    {
        let note = self.shifted_note();
        let ghost exact = nearest_note(self.cents as int);
        proof {
            lemma_shifted_div(exact, OCTAVES_IN_OFFSET as int, 12);
        }
        let class = note % 12;
        let octave = ((note / 12) as i128 - OCTAVES_IN_OFFSET as i128 - 1) as i64;
        let mut s = String::from_str(padded_class_name_str(class));
        if octave < 0 {
            s.append("-");
            proof {
                reveal_strlit("-");
            }
            push_digits(&mut s, (-(octave as i128)) as u64);
        } else {
            push_digits(&mut s, octave as u64);
        }
        assert(s@ =~= pitch_label(self.cents as int));
        s
    }
}

} // verus!
