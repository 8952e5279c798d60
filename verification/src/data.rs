//! The data model: notes, chords, variables, and the instruction variants
//! that a parsed program is made of, together with their mathematical views.

use vstd::prelude::*;

verus! {

/// One of the seven pitch letters. The letter `H` is accepted at parse time
/// as an alias for `B`; it never appears in parsed data.
#[derive(Debug, Clone, Copy, PartialEq, Eq, Structural)]
pub enum NoteName {
    A,
    B,
    C,
    D,
    E,
    F,
    G,
}

/// An optional accidental attached to a note letter: `#`, `b`, or nothing.
#[derive(Debug, Clone, Copy, PartialEq, Eq, Structural)]
pub enum NoteModifier {
    Flat,
    Sharp,
    Natural,
}

/// A pitch letter with its accidental.
#[derive(Debug, Clone, Copy, PartialEq, Eq, Structural)]
pub struct Note {
    pub note: NoteName,
    pub modifier: NoteModifier,
}

/// One or more simultaneous notes sharing one duration. The duration is the
/// rational `num / den`, kept as the two integers that were parsed; `den`
/// defaults to 1 when the source gives no denominator.
#[derive(Debug, Clone, PartialEq, Eq)]
pub struct Chord {
    pub notes: Vec<Note>,
    pub num: usize,
    pub den: usize,
}

/// Mathematical view of a [`Chord`].
pub struct ChordV {
    pub notes: Seq<Note>,
    pub num: int,
    pub den: int,
}

impl View for Chord {
    type V = ChordV;

    open spec fn view(&self) -> ChordV {
        ChordV { notes: self.notes@, num: self.num as int, den: self.den as int }
    }
}

impl Chord {
    /// A chord is well formed when it holds at least one note.
    pub open spec fn wf(&self) -> bool {
        self.notes@.len() >= 1
    }

    /// Whether the chord is a single note.
    pub fn is_note(&self) -> (r: bool)
        ensures
            r == (self@.notes.len() == 1),
    {
        self.notes.len() == 1
    }

    /// Writes the chord back in source syntax: the notes, the duration
    /// numerator, and `/denominator` unless the denominator is 1. Parsing
    /// the result gives back an equal chord.
    pub fn to_text(&self) -> (r: String)
        ensures
            r@ == chord_text(self@),
    {
        let mut s = String::new();
        let mut i: usize = 0;
        while i < self.notes.len()
            invariant
                i <= self.notes@.len(),
                s@ == notes_text(self.notes@.subrange(0, i as int)),
            decreases self.notes@.len() - i,
        {
            let ghost pre = self.notes@.subrange(0, i as int);
            let n = self.notes[i];
            crate::text::push_char(&mut s, letter_char(n.note));
            match n.modifier {
                NoteModifier::Sharp => crate::text::push_char(&mut s, '#'),
                NoteModifier::Flat => crate::text::push_char(&mut s, 'b'),
                NoteModifier::Natural => {},
            }
            i = i + 1;
            proof {
                lemma_notes_text_push(pre, n);
                assert(pre.push(n) =~= self.notes@.subrange(0, i as int));
                assert(notes_text(pre) + note_text(n) =~= s@);
            }
        }
        proof {
            assert(self.notes@.subrange(0, self.notes@.len() as int) =~= self.notes@);
        }
        crate::text::append_u64(&mut s, self.num as u64);
        if self.den != 1 {
            crate::text::push_char(&mut s, '/');
            crate::text::append_u64(&mut s, self.den as u64);
            proof {
                assert(((notes_text(self.notes@) + crate::text::dec_rep(self.num as nat)).push(
                    '/',
                ) + crate::text::dec_rep(self.den as nat)) =~= chord_text(self@));
            }
        } else {
            proof {
                assert(notes_text(self.notes@) + crate::text::dec_rep(self.num as nat)
                    =~= chord_text(self@));
            }
        }
        s
    }

    /// A copy of the chord with the same view.
    pub fn duplicate(&self) -> (r: Chord)
        ensures
            r@ == self@,
    {
        let mut notes: Vec<Note> = Vec::new();
        let mut i: usize = 0;
        while i < self.notes.len()
            invariant
                i <= self.notes@.len(),
                notes@ =~= self.notes@.subrange(0, i as int),
            decreases self.notes@.len() - i,
        {
            notes.push(self.notes[i]);
            i = i + 1;
        }
        proof {
            assert(notes@ =~= self.notes@);
        }
        Chord { notes, num: self.num, den: self.den }
    }
}

/// The letter a pitch is written with. The parse-time alias `H` is never
/// produced here: `B` serializes as `B`.
pub open spec fn letter_of(n: NoteName) -> char {
    match n {
        NoteName::A => 'A',
        NoteName::B => 'B',
        NoteName::C => 'C',
        NoteName::D => 'D',
        NoteName::E => 'E',
        NoteName::F => 'F',
        NoteName::G => 'G',
    }
}

/// The text of one note: its letter, then `#`, `b`, or nothing.
pub open spec fn note_text(n: Note) -> Seq<char> {
    seq![letter_of(n.note)] + match n.modifier {
        NoteModifier::Sharp => seq!['#'],
        NoteModifier::Flat => seq!['b'],
        NoteModifier::Natural => Seq::<char>::empty(),
    }
}

/// The text of a run of notes, in order.
pub open spec fn notes_text(ns: Seq<Note>) -> Seq<char>
    decreases ns.len(),
{
    if ns.len() == 0 {
        Seq::empty()
    } else {
        note_text(ns[0]) + notes_text(ns.drop_first())
    }
}

/// Serialization appends one note's text at a time.
pub proof fn lemma_notes_text_push(ns: Seq<Note>, n: Note)
    ensures
        notes_text(ns.push(n)) == notes_text(ns) + note_text(n),
    decreases ns.len(),
{
    let s = ns.push(n);
    if ns.len() == 0 {
        assert(s.drop_first() =~= Seq::<Note>::empty());
        assert(s[0] == n);
        assert(notes_text(s) == note_text(n) + notes_text(s.drop_first()));
        assert(note_text(n) + Seq::<char>::empty() =~= note_text(n));
        assert(Seq::<char>::empty() + note_text(n) =~= note_text(n));
    } else {
        assert(s[0] == ns[0]);
        assert(s.drop_first() =~= ns.drop_first().push(n));
        lemma_notes_text_push(ns.drop_first(), n);
        assert(notes_text(s) == note_text(s[0]) + notes_text(s.drop_first()));
        assert(notes_text(s.drop_first()) == notes_text(ns.drop_first()) + note_text(n));
        assert(note_text(ns[0]) + (notes_text(ns.drop_first()) + note_text(n)) =~= (note_text(
            ns[0],
        ) + notes_text(ns.drop_first())) + note_text(n));
    }
}

/// The writer of one note's letter.
fn letter_char(n: NoteName) -> (c: char)
    ensures
        c == letter_of(n),
{
    match n {
        NoteName::A => 'A',
        NoteName::B => 'B',
        NoteName::C => 'C',
        NoteName::D => 'D',
        NoteName::E => 'E',
        NoteName::F => 'F',
        NoteName::G => 'G',
    }
}

/// The text of a whole chord: its notes, then the duration numerator, then
/// `/` and the denominator unless that is the default 1.
pub open spec fn chord_text(c: ChordV) -> Seq<char>
    recommends
        c.num >= 0,
        c.den >= 0,
{
    notes_text(c.notes) + crate::text::dec_rep(c.num as nat) + (if c.den == 1 {
        Seq::<char>::empty()
    } else {
        seq!['/'] + crate::text::dec_rep(c.den as nat)
    })
}

/// A named numeric variable. Values are signed so that `dec` can move a
/// freshly declared variable below zero.
#[derive(Debug, Clone, PartialEq, Eq)]
pub struct Variable {
    pub name: String,
    pub value: i64,
}

/// Mathematical view of a [`Variable`].
pub struct VarV {
    pub name: Seq<char>,
    pub value: i64,
}

impl View for Variable {
    type V = VarV;

    open spec fn view(&self) -> VarV {
        VarV { name: self.name@, value: self.value }
    }
}

/// One parsed instruction, in source order.
#[derive(Debug, PartialEq, Eq)]
pub enum MusicalValues {
    /// A jump target `@name`.
    Label(String),
    /// A chord to be played.
    Chord(Chord),
    /// A variable declaration `name: value`.
    Var(Variable),
    /// A two-identifier instruction `verb argument`.
    Pair((String, String)),
}

/// Mathematical view of a [`MusicalValues`] instruction.
pub enum InstrV {
    Label(Seq<char>),
    Chord(ChordV),
    Var(VarV),
    Pair(Seq<char>, Seq<char>),
}

impl View for MusicalValues {
    type V = InstrV;

    open spec fn view(&self) -> InstrV {
        match self {
            MusicalValues::Label(s) => InstrV::Label(s@),
            MusicalValues::Chord(c) => InstrV::Chord(c@),
            MusicalValues::Var(v) => InstrV::Var(v@),
            MusicalValues::Pair(p) => InstrV::Pair(p.0@, p.1@),
        }
    }
}

/// The short description of an instruction used in diagnostics.
pub open spec fn instr_text(i: InstrV) -> Seq<char> {
    match i {
        InstrV::Label(s) => "@"@ + s,
        InstrV::Pair(a, b) => "pair '"@ + a + " "@ + b + "'"@,
        InstrV::Chord(_) => "<chord>"@,
        InstrV::Var(v) => v.name + " = "@ + crate::text::dec_rep_i(v.value),
    }
}

impl MusicalValues {
    /// Renders the short description of the instruction used in
    /// diagnostics.
    pub fn describe(&self) -> (r: String)
        ensures
            r@ == instr_text(self@),
    {
        let mut s = String::new();
        match self {
            MusicalValues::Label(n) => {
                crate::text::push_str(&mut s, "@");
                crate::text::push_str(&mut s, n.as_str());
            },
            MusicalValues::Pair(p) => {
                crate::text::push_str(&mut s, "pair '");
                crate::text::push_str(&mut s, p.0.as_str());
                crate::text::push_str(&mut s, " ");
                crate::text::push_str(&mut s, p.1.as_str());
                crate::text::push_str(&mut s, "'");
            },
            MusicalValues::Chord(_) => {
                crate::text::push_str(&mut s, "<chord>");
            },
            MusicalValues::Var(v) => {
                crate::text::push_str(&mut s, v.name.as_str());
                crate::text::push_str(&mut s, " = ");
                crate::text::append_i64(&mut s, v.value);
            },
        }
        proof {
            assert(s@ =~= instr_text(self@));
        }
        s
    }

    /// A copy of the instruction with the same view.
    pub fn duplicate(&self) -> (r: MusicalValues)
        ensures
            r@ == self@,
    {
        match self {
            MusicalValues::Label(s) => MusicalValues::Label(s.clone()),
            MusicalValues::Chord(c) => MusicalValues::Chord(c.duplicate()),
            MusicalValues::Var(v) => MusicalValues::Var(
                Variable { name: v.name.clone(), value: v.value },
            ),
            MusicalValues::Pair(p) => MusicalValues::Pair((p.0.clone(), p.1.clone())),
        }
    }
}

/// The views of a sequence of instructions, element by element.
pub open spec fn instr_views(s: Seq<MusicalValues>) -> Seq<InstrV> {
    s.map(|i: int, v: MusicalValues| v@)
}

} // verus!
