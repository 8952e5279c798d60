//! The character cursor and the grammar rules.
//!
//! The cursor scans a borrowed string by character position, tracking how
//! many newlines it has consumed; `skip_whitespace` also swallows `#` line
//! comments and `<`..`>` block comments (an unterminated block comment
//! silently runs to end of input). Every operation's effect is stated against
//! pure functions over the character sequence, so the exact position, line
//! count and produced value are pinned for every input.

use crate::data::Chord;
use crate::data::ChordV;
use crate::data::InstrV;
use crate::data::MusicalValues;
use crate::data::Note;
use crate::data::Variable;
use crate::data::NoteModifier;
use crate::data::NoteName;
use crate::data::VarV;
use crate::data::chord_text;
use crate::data::letter_of;
use crate::data::note_text;
use crate::data::notes_text;
use crate::error::ParseResponse;
use vstd::prelude::*;
use vstd::string::StrSliceExecFns;

verus! {

/// What the whitespace scanner is inside of: plain code, a `#` line comment,
/// or a `<`..`>` block comment.
#[derive(Debug, Clone, Copy, PartialEq, Eq, Structural)]
pub enum WsMode {
    Code,
    Line,
    Block,
}

/// Whether `c` is plain intra-line whitespace (or the `;` separator, which
/// the scanner treats alike).
pub open spec fn is_space(c: char) -> bool {
    c == ' ' || c == '\t' || c == '\r' || c == ';'
}

/// Where whitespace skipping started in mode `m` at `pos` with `lines`
/// newlines seen ends up: the first position of meaningful input, and the
/// new newline count.
pub open spec fn scan_ws(s: Seq<char>, pos: int, lines: int, m: WsMode) -> (int, int)
    decreases s.len() - pos,
{
    if pos < 0 || pos >= s.len() {
        (pos, lines)
    } else {
        let c = s[pos];
        match m {
            WsMode::Code => {
                if is_space(c) {
                    scan_ws(s, pos + 1, lines, WsMode::Code)
                } else if c == '\n' {
                    scan_ws(s, pos + 1, lines + 1, WsMode::Code)
                } else if c == '#' {
                    scan_ws(s, pos + 1, lines, WsMode::Line)
                } else if c == '<' {
                    scan_ws(s, pos + 1, lines, WsMode::Block)
                } else {
                    (pos, lines)
                }
            },
            WsMode::Line => {
                if c == '\n' {
                    scan_ws(s, pos + 1, lines + 1, WsMode::Code)
                } else {
                    scan_ws(s, pos + 1, lines, WsMode::Line)
                }
            },
            WsMode::Block => {
                if c == '>' {
                    scan_ws(s, pos + 1, lines, WsMode::Code)
                } else if c == '\n' {
                    scan_ws(s, pos + 1, lines + 1, WsMode::Block)
                } else {
                    scan_ws(s, pos + 1, lines, WsMode::Block)
                }
            },
        }
    }
}

/// Whitespace skipping from plain code.
pub open spec fn skip_ws_spec(s: Seq<char>, pos: int, lines: int) -> (int, int) {
    scan_ws(s, pos, lines, WsMode::Code)
}

/// The scanner never moves backwards, never runs past the end, and adds at
/// most one newline per consumed character.
pub proof fn lemma_scan_ws_bounds(s: Seq<char>, pos: int, lines: int, m: WsMode)
    requires
        0 <= pos <= s.len(),
    ensures
        pos <= scan_ws(s, pos, lines, m).0 <= s.len(),
        scan_ws(s, pos, lines, m).1 - lines <= scan_ws(s, pos, lines, m).0 - pos,
        lines <= scan_ws(s, pos, lines, m).1,
    decreases s.len() - pos,
{
    if pos < s.len() {
        let c = s[pos];
        match m {
            WsMode::Code => {
                if is_space(c) {
                    lemma_scan_ws_bounds(s, pos + 1, lines, WsMode::Code);
                } else if c == '\n' {
                    lemma_scan_ws_bounds(s, pos + 1, lines + 1, WsMode::Code);
                } else if c == '#' {
                    lemma_scan_ws_bounds(s, pos + 1, lines, WsMode::Line);
                } else if c == '<' {
                    lemma_scan_ws_bounds(s, pos + 1, lines, WsMode::Block);
                }
            },
            WsMode::Line => {
                if c == '\n' {
                    lemma_scan_ws_bounds(s, pos + 1, lines + 1, WsMode::Code);
                } else {
                    lemma_scan_ws_bounds(s, pos + 1, lines, WsMode::Line);
                }
            },
            WsMode::Block => {
                if c == '>' {
                    lemma_scan_ws_bounds(s, pos + 1, lines, WsMode::Code);
                } else if c == '\n' {
                    lemma_scan_ws_bounds(s, pos + 1, lines + 1, WsMode::Block);
                } else {
                    lemma_scan_ws_bounds(s, pos + 1, lines, WsMode::Block);
                }
            },
        }
    }
}

/// Whether `c` may appear in an identifier: an ASCII letter, `.` or `_`.
pub open spec fn is_ident_char(c: char) -> bool {
    ('a' <= c && c <= 'z') || ('A' <= c && c <= 'Z') || c == '.' || c == '_'
}

/// The end of the identifier-character run starting at `pos`.
pub open spec fn ident_end(s: Seq<char>, pos: int) -> int
    decreases s.len() - pos,
{
    if 0 <= pos < s.len() && is_ident_char(s[pos]) {
        ident_end(s, pos + 1)
    } else {
        pos
    }
}

/// The end of the decimal-digit run starting at `pos`.
pub open spec fn digits_end(s: Seq<char>, pos: int) -> int
    decreases s.len() - pos,
{
    if 0 <= pos < s.len() && crate::text::is_digit_char(s[pos]) {
        digits_end(s, pos + 1)
    } else {
        pos
    }
}

/// Character-run ends stay between their start and the end of the text.
pub proof fn lemma_run_end_bounds(s: Seq<char>, pos: int)
    requires
        0 <= pos <= s.len(),
    ensures
        pos <= ident_end(s, pos) <= s.len(),
        pos <= digits_end(s, pos) <= s.len(),
    decreases s.len() - pos,
{
    if pos < s.len() {
        lemma_run_end_bounds(s, pos + 1);
    }
}

/// The outcome of one grammar rule tried at a given position: the rule
/// consumed input and produced a value, the rule does not apply here (the
/// cursor is restored exactly), or a hard error (the cursor stays where the
/// failure was found).
pub enum Step<T> {
    Good { v: T, pos: int, lines: int },
    Absent,
    Hard { e: ParseResponse, pos: int, lines: int },
}

/// The identifier rule: skip whitespace, then a non-empty run of letters,
/// `.` and `_`.
pub open spec fn spec_ident(s: Seq<char>, pos: int, lines: int) -> Step<Seq<char>> {
    let (p, l) = skip_ws_spec(s, pos, lines);
    let e = ident_end(s, p);
    if e == p {
        Step::Absent
    } else {
        Step::Good { v: s.subrange(p, e), pos: e, lines: l }
    }
}

/// The unsigned-integer rule: skip whitespace, then a non-empty digit run;
/// a run whose value exceeds the machine word is a hard integer error.
pub open spec fn spec_uint(s: Seq<char>, pos: int, lines: int) -> Step<usize> {
    let (p, l) = skip_ws_spec(s, pos, lines);
    let e = digits_end(s, p);
    let v = crate::text::digits_val(s.subrange(p, e));
    if e == p {
        Step::Absent
    } else if v <= usize::MAX {
        Step::Good { v: v as usize, pos: e, lines: l }
    } else {
        Step::Hard { e: ParseResponse::Int(l as usize), pos: e, lines: l }
    }
}

/// The label rule: `@`, then an identifier. Once the `@` is consumed the
/// rule is committed: a missing identifier is a hard error, not a rollback.
pub open spec fn spec_label(s: Seq<char>, pos: int, lines: int) -> Step<Seq<char>> {
    let (p, l) = skip_ws_spec(s, pos, lines);
    if p < s.len() && s[p] == '@' {
        match spec_ident(s, p + 1, l) {
            Step::Good { v, pos, lines } => Step::Good { v, pos, lines },
            Step::Absent => {
                let (p2, l2) = skip_ws_spec(s, p + 1, l);
                Step::Hard { e: ParseResponse::Ident(l2 as usize), pos: p2, lines: l2 }
            },
            Step::Hard { e, pos, lines } => Step::Hard { e, pos, lines },
        }
    } else {
        Step::Absent
    }
}

/// Whether `c` begins a note token.
pub open spec fn is_note_letter(c: char) -> bool {
    c == 'A' || c == 'B' || c == 'C' || c == 'D' || c == 'E' || c == 'F' || c == 'G' || c == 'H'
}

/// The pitch letter named by `c`; `H` is the alias for `B`.
pub open spec fn note_name_of(c: char) -> NoteName {
    if c == 'A' {
        NoteName::A
    } else if c == 'B' || c == 'H' {
        NoteName::B
    } else if c == 'C' {
        NoteName::C
    } else if c == 'D' {
        NoteName::D
    } else if c == 'E' {
        NoteName::E
    } else if c == 'F' {
        NoteName::F
    } else {
        NoteName::G
    }
}

/// The note rule: one pitch letter, then `#`, `b`, or nothing. When no
/// modifier character follows, trailing whitespace is consumed before the
/// next note is tried.
pub open spec fn spec_note(s: Seq<char>, pos: int, lines: int) -> Step<Note> {
    let (p, l) = skip_ws_spec(s, pos, lines);
    if p < s.len() && is_note_letter(s[p]) {
        let name = note_name_of(s[p]);
        let q = p + 1;
        if q < s.len() && s[q] == '#' {
            Step::Good { v: Note { note: name, modifier: NoteModifier::Sharp }, pos: q + 1, lines: l }
        } else if q < s.len() && s[q] == 'b' {
            Step::Good { v: Note { note: name, modifier: NoteModifier::Flat }, pos: q + 1, lines: l }
        } else {
            let (q2, l2) = skip_ws_spec(s, q, l);
            Step::Good { v: Note { note: name, modifier: NoteModifier::Natural }, pos: q2, lines: l2 }
        }
    } else {
        Step::Absent
    }
}

/// A successful note always advances the cursor and stays in the text.
pub proof fn lemma_spec_note_advances(s: Seq<char>, pos: int, lines: int)
    requires
        0 <= pos <= s.len(),
        0 <= lines,
    ensures
        spec_note(s, pos, lines) matches Step::Good { v, pos: p2, lines: l2 } ==> pos < p2 <= s.len()
            && 0 <= l2,
{
    lemma_scan_ws_bounds(s, pos, lines, WsMode::Code);
    let (p, l) = skip_ws_spec(s, pos, lines);
    if p < s.len() && is_note_letter(s[p]) {
        lemma_scan_ws_bounds(s, p + 1, l, WsMode::Code);
    }
}

/// The run of notes starting at `pos`: the notes read, and where and on
/// which line the run ends.
pub open spec fn spec_notes(s: Seq<char>, pos: int, lines: int) -> (Seq<Note>, int, int)
    decreases s.len() - pos,
    when 0 <= pos <= s.len() && 0 <= lines
{
    match spec_note(s, pos, lines) {
        Step::Good { v, pos: p2, lines: l2 } => {
            proof {
                lemma_spec_note_advances(s, pos, lines);
            }
            let (rest, p3, l3) = spec_notes(s, p2, l2);
            (seq![v] + rest, p3, l3)
        },
        _ => (Seq::empty(), pos, lines),
    }
}

/// The duration rule: an unsigned integer, then optionally `/` and a second
/// unsigned integer; the denominator defaults to 1. In the places where a
/// duration is demanded a missing number is a hard integer error.
pub open spec fn spec_duration(s: Seq<char>, pos: int, lines: int) -> Step<(usize, usize)> {
    match spec_uint(s, pos, lines) {
        Step::Good { v: num, pos: p, lines: l } => {
            let (q, lq) = skip_ws_spec(s, p, l);
            if q < s.len() && s[q] == '/' {
                match spec_uint(s, q + 1, lq) {
                    Step::Good { v: den, pos: p2, lines: l2 } => Step::Good {
                        v: (num, den),
                        pos: p2,
                        lines: l2,
                    },
                    Step::Absent => {
                        let (q2, l3) = skip_ws_spec(s, q + 1, lq);
                        Step::Hard { e: ParseResponse::Int(l3 as usize), pos: q2, lines: l3 }
                    },
                    Step::Hard { e, pos, lines } => Step::Hard { e, pos, lines },
                }
            } else {
                Step::Good { v: (num, 1), pos: q, lines: lq }
            }
        },
        Step::Absent => {
            let (p0, l0) = skip_ws_spec(s, pos, lines);
            Step::Hard { e: ParseResponse::Int(l0 as usize), pos: p0, lines: l0 }
        },
        Step::Hard { e, pos, lines } => Step::Hard { e, pos, lines },
    }
}

/// The chord rule: one or more notes, then a mandatory duration. Zero notes
/// read means the rule does not apply; after at least one note a missing or
/// unreadable duration is a hard error.
pub open spec fn spec_chord(s: Seq<char>, pos: int, lines: int) -> Step<ChordV> {
    let (notes, p, l) = spec_notes(s, pos, lines);
    if notes.len() == 0 {
        Step::Absent
    } else {
        match spec_duration(s, p, l) {
            Step::Good { v, pos, lines } => Step::Good {
                v: ChordV { notes, num: v.0 as int, den: v.1 as int },
                pos,
                lines,
            },
            Step::Absent => Step::Absent,
            Step::Hard { e, pos, lines } => Step::Hard { e, pos, lines },
        }
    }
}

/// The pair rule: two identifiers. It applies only when both can be read;
/// otherwise the cursor is restored to where the attempt began.
pub open spec fn spec_pair(s: Seq<char>, pos: int, lines: int) -> Step<(Seq<char>, Seq<char>)> {
    match spec_ident(s, pos, lines) {
        Step::Good { v: a, pos: p, lines: l } => match spec_ident(s, p, l) {
            Step::Good { v: b, pos: p2, lines: l2 } => Step::Good {
                v: (a, b),
                pos: p2,
                lines: l2,
            },
            _ => Step::Absent,
        },
        _ => Step::Absent,
    }
}

/// The variable-declaration rule: an identifier, `:`, then an unsigned
/// integer that must fit the signed value range. A missing `:` rolls the
/// rule back to not-applicable; a missing or oversized number after the `:`
/// is a hard integer error.
pub open spec fn spec_variable(s: Seq<char>, pos: int, lines: int) -> Step<VarV> {
    match spec_ident(s, pos, lines) {
        Step::Good { v: name, pos: p, lines: l } => {
            let (q, lq) = skip_ws_spec(s, p, l);
            if q < s.len() && s[q] == ':' {
                match spec_uint(s, q + 1, lq) {
                    Step::Good { v, pos: p2, lines: l2 } => {
                        if v <= i64::MAX {
                            Step::Good {
                                v: VarV { name, value: v as i64 },
                                pos: p2,
                                lines: l2,
                            }
                        } else {
                            Step::Hard { e: ParseResponse::Int(l2 as usize), pos: p2, lines: l2 }
                        }
                    },
                    Step::Absent => {
                        let (q2, l3) = skip_ws_spec(s, q + 1, lq);
                        Step::Hard { e: ParseResponse::Int(l3 as usize), pos: q2, lines: l3 }
                    },
                    Step::Hard { e, pos, lines } => Step::Hard { e, pos, lines },
                }
            } else {
                Step::Absent
            }
        },
        _ => Step::Absent,
    }
}

/// The dispatcher: label, chord, pair, then variable declaration, first
/// success winning. When no rule applies: end of input is the `Done`
/// sentinel, anything else an unexpected-character error on the current
/// line. The result is never `Absent`.
pub open spec fn spec_next(s: Seq<char>, pos: int, lines: int) -> Step<InstrV> {
    match spec_label(s, pos, lines) {
        Step::Good { v, pos, lines } => Step::Good { v: InstrV::Label(v), pos, lines },
        Step::Hard { e, pos, lines } => Step::Hard { e, pos, lines },
        Step::Absent => match spec_chord(s, pos, lines) {
            Step::Good { v, pos, lines } => Step::Good { v: InstrV::Chord(v), pos, lines },
            Step::Hard { e, pos, lines } => Step::Hard { e, pos, lines },
            Step::Absent => match spec_pair(s, pos, lines) {
                Step::Good { v, pos, lines } => Step::Good {
                    v: InstrV::Pair(v.0, v.1),
                    pos,
                    lines,
                },
                Step::Hard { e, pos, lines } => Step::Hard { e, pos, lines },
                Step::Absent => match spec_variable(s, pos, lines) {
                    Step::Good { v, pos, lines } => Step::Good { v: InstrV::Var(v), pos, lines },
                    Step::Hard { e, pos, lines } => Step::Hard { e, pos, lines },
                    Step::Absent => {
                        let (p, l) = skip_ws_spec(s, pos, lines);
                        if p >= s.len() {
                            Step::Hard { e: ParseResponse::Done, pos: p, lines: l }
                        } else {
                            Step::Hard { e: ParseResponse::Unexpected(l as usize), pos: p, lines: l }
                        }
                    },
                },
            },
        },
    }
}

/// The chord rule backs off whenever no note letter stands at the first
/// meaningful position — in particular when a bare number, however much it
/// looks like a duration, follows instead: zero notes consumed means
/// not-applicable, never a hard error.
pub proof fn lemma_chord_needs_note(s: Seq<char>, pos: int, lines: int)
    requires
        0 <= pos <= s.len(),
        0 <= lines,
    ensures
        ({
            let (p, l) = skip_ws_spec(s, pos, lines);
            !(p < s.len() && is_note_letter(s[p])) ==> spec_chord(s, pos, lines)
                == Step::<ChordV>::Absent
        }),
{
    let (p, l) = skip_ws_spec(s, pos, lines);
    if !(p < s.len() && is_note_letter(s[p])) {
        assert(spec_note(s, pos, lines) == Step::<Note>::Absent);
        assert(spec_notes(s, pos, lines).0.len() == 0);
    }
}

/// A run of digits covering exactly `[pos, end)` is consumed exactly to
/// `end`.
pub proof fn lemma_digits_end_exact(s: Seq<char>, pos: int, end: int)
    requires
        0 <= pos <= end <= s.len(),
        forall|i: int| pos <= i < end ==> crate::text::is_digit_char(#[trigger] s[i]),
        end == s.len() || !crate::text::is_digit_char(s[end]),
    ensures
        digits_end(s, pos) == end,
    decreases end - pos,
{
    if pos < end {
        lemma_digits_end_exact(s, pos + 1, end);
    }
}

/// Reading a number over the decimal spelling of `n` yields exactly `n`,
/// consuming exactly the spelling.
pub proof fn lemma_uint_exact(s: Seq<char>, pos: int, lines: int, n: int)
    requires
        0 <= pos,
        0 <= lines,
        0 <= n <= usize::MAX,
        pos + crate::text::dec_rep(n as nat).len() <= s.len(),
        s.subrange(pos, pos + crate::text::dec_rep(n as nat).len() as int)
            == crate::text::dec_rep(n as nat),
        pos + crate::text::dec_rep(n as nat).len() == s.len() || !crate::text::is_digit_char(
            s[pos + crate::text::dec_rep(n as nat).len()],
        ),
    ensures
        spec_uint(s, pos, lines) == (Step::Good {
            v: n as usize,
            pos: pos + crate::text::dec_rep(n as nat).len() as int,
            lines: lines,
        }),
{
    crate::text::lemma_dec_rep_digits(n as nat);
    let w = crate::text::dec_rep(n as nat);
    let end = pos + w.len();
    assert forall|i: int| pos <= i < end implies crate::text::is_digit_char(
        #[trigger] s[i],
    ) by {
        assert(s[i] == s.subrange(pos, end)[i - pos]);
    }
    assert(s[pos] == w[0]);
    assert(skip_ws_spec(s, pos, lines) == (pos, lines));
    lemma_digits_end_exact(s, pos, end);
    assert(crate::text::digits_val(s.subrange(pos, end)) == n);
}

/// Reading notes over the serialized text of a note run, with a digit
/// following, yields exactly those notes and stops at the digit.
pub proof fn lemma_notes_exact(s: Seq<char>, pos: int, lines: int, notes: Seq<Note>)
    requires
        0 <= pos,
        0 <= lines,
        pos + notes_text(notes).len() <= s.len(),
        s.subrange(pos, pos + notes_text(notes).len() as int) == notes_text(notes),
        pos + notes_text(notes).len() < s.len(),
        crate::text::is_digit_char(s[pos + notes_text(notes).len()]),
    ensures
        spec_notes(s, pos, lines) == (notes, pos + notes_text(notes).len() as int, lines),
    decreases notes.len(),
{
    let end = pos + notes_text(notes).len();
    if notes.len() == 0 {
        assert(spec_note(s, pos, lines) == Step::<Note>::Absent);
    } else {
        let n0 = notes[0];
        let nt = note_text(n0);
        let rest = notes.drop_first();
        assert(notes_text(notes) == nt + notes_text(rest));
        assert forall|i: int| pos <= i < end implies s[i] == notes_text(notes)[i - pos] by {
            assert(s[i] == s.subrange(pos, end)[i - pos]);
        }
        assert(s[pos] == nt[0]);
        assert(nt[0] == letter_of(n0.note));
        assert(is_note_letter(s[pos]));
        assert(note_name_of(letter_of(n0.note)) == n0.note);
        assert(skip_ws_spec(s, pos, lines) == (pos, lines));
        let q = pos + 1;
        match n0.modifier {
            NoteModifier::Sharp => {
                assert(s[q] == nt[1]);
                assert(nt[1] == '#');
                assert(spec_note(s, pos, lines) == (Step::Good {
                    v: n0,
                    pos: pos + nt.len(),
                    lines: lines,
                }));
            },
            NoteModifier::Flat => {
                assert(s[q] == nt[1]);
                assert(nt[1] == 'b');
                assert(spec_note(s, pos, lines) == (Step::Good {
                    v: n0,
                    pos: pos + nt.len(),
                    lines: lines,
                }));
            },
            NoteModifier::Natural => {
                assert(nt.len() == 1);
                if rest.len() == 0 {
                    assert(q == end);
                    assert(crate::text::is_digit_char(s[q]));
                } else {
                    assert(notes_text(rest)[0] == letter_of(rest[0].note));
                    assert(s[q] == notes_text(notes)[1]);
                    assert(notes_text(notes)[1] == notes_text(rest)[0]);
                }
                assert(q < s.len());
                assert(s[q] != '#' && s[q] != 'b');
                assert(skip_ws_spec(s, q, lines) == (q, lines));
                assert(spec_note(s, pos, lines) == (Step::Good {
                    v: n0,
                    pos: pos + nt.len(),
                    lines: lines,
                }));
            },
        }
        let pos2 = pos + nt.len();
        assert(s.subrange(pos2, pos2 + notes_text(rest).len() as int) =~= notes_text(rest));
        lemma_notes_exact(s, pos2, lines, rest);
        assert(seq![n0] + rest =~= notes);
    }
}

/// Writing a chord back in source syntax and parsing the text again yields
/// the very same chord, with the whole text consumed: serialization and the
/// chord rule are mutually inverse on well-formed chords.
pub proof fn lemma_chord_round_trip(c: ChordV)
    requires
        c.notes.len() >= 1,
        0 <= c.num <= usize::MAX,
        0 <= c.den <= usize::MAX,
    ensures
        spec_chord(chord_text(c), 0, 0) == (Step::Good {
            v: c,
            pos: chord_text(c).len() as int,
            lines: 0,
        }),
{
    let t = chord_text(c);
    let nt = notes_text(c.notes);
    let wn = crate::text::dec_rep(c.num as nat);
    crate::text::lemma_dec_rep_digits(c.num as nat);
    assert(t.subrange(0, nt.len() as int) =~= nt);
    assert(t[nt.len() as int] == wn[0]);
    lemma_notes_exact(t, 0, 0, c.notes);
    let numpos = nt.len() as int;
    let numend = numpos + wn.len();
    assert(t.subrange(numpos, numend) =~= wn);
    if c.den == 1 {
        assert(t.len() == numend);
        lemma_uint_exact(t, numpos, 0, c.num);
        assert(skip_ws_spec(t, numend, 0) == (numend, 0int));
        assert(spec_duration(t, numpos, 0) == (Step::Good {
            v: (c.num as usize, 1usize),
            pos: numend,
            lines: 0,
        }));
        assert(ChordV { notes: c.notes, num: c.num as usize as int, den: 1int } == c);
    } else {
        let wd = crate::text::dec_rep(c.den as nat);
        crate::text::lemma_dec_rep_digits(c.den as nat);
        assert(t.len() == numend + 1 + wd.len());
        assert(t[numend] == '/');
        lemma_uint_exact(t, numpos, 0, c.num);
        assert(skip_ws_spec(t, numend, 0) == (numend, 0int));
        assert(t.subrange(numend + 1, t.len() as int) =~= wd);
        lemma_uint_exact(t, numend + 1, 0, c.den);
        assert(spec_duration(t, numpos, 0) == (Step::Good {
            v: (c.num as usize, c.den as usize),
            pos: t.len() as int,
            lines: 0,
        }));
        assert(ChordV { notes: c.notes, num: c.num as usize as int, den: c.den as usize as int }
            == c);
    }
}

/// A successful identifier ends strictly past where it began, inside the
/// text.
pub proof fn lemma_spec_ident_moves(s: Seq<char>, pos: int, lines: int)
    requires
        0 <= pos <= s.len(),
        0 <= lines,
    ensures
        spec_ident(s, pos, lines) matches Step::Good { v, pos: p2, lines: l2 } ==> pos < p2
            <= s.len() && 0 <= l2,
{
    lemma_scan_ws_bounds(s, pos, lines, WsMode::Code);
    let (p, l) = skip_ws_spec(s, pos, lines);
    lemma_run_end_bounds(s, p);
}

/// A number rule that read digits (successfully or not) ends strictly past
/// where it began, inside the text.
pub proof fn lemma_spec_uint_moves(s: Seq<char>, pos: int, lines: int)
    requires
        0 <= pos <= s.len(),
        0 <= lines,
    ensures
        spec_uint(s, pos, lines) matches Step::Good { v, pos: p2, lines: l2 } ==> pos < p2
            <= s.len() && 0 <= l2,
        spec_uint(s, pos, lines) matches Step::Hard { e, pos: p2, lines: l2 } ==> pos < p2
            <= s.len() && 0 <= l2,
{
    lemma_scan_ws_bounds(s, pos, lines, WsMode::Code);
    let (p, l) = skip_ws_spec(s, pos, lines);
    lemma_run_end_bounds(s, p);
}

/// A note run never moves backwards, stays inside the text, and moves
/// strictly when it read at least one note.
pub proof fn lemma_spec_notes_bounds(s: Seq<char>, pos: int, lines: int)
    requires
        0 <= pos <= s.len(),
        0 <= lines,
    ensures
        pos <= spec_notes(s, pos, lines).1 <= s.len(),
        0 <= spec_notes(s, pos, lines).2,
        spec_notes(s, pos, lines).0.len() > 0 ==> pos < spec_notes(s, pos, lines).1,
    decreases s.len() - pos,
{
    lemma_spec_note_advances(s, pos, lines);
    match spec_note(s, pos, lines) {
        Step::Good { v, pos: p2, lines: l2 } => {
            lemma_spec_notes_bounds(s, p2, l2);
        },
        _ => {},
    }
}

/// A duration read (successful or failed after digits) never moves
/// backwards and stays inside the text.
pub proof fn lemma_spec_duration_moves(s: Seq<char>, pos: int, lines: int)
    requires
        0 <= pos <= s.len(),
        0 <= lines,
    ensures
        spec_duration(s, pos, lines) matches Step::Good { v, pos: p2, lines: l2 } ==> pos <= p2
            <= s.len() && 0 <= l2,
        spec_duration(s, pos, lines) matches Step::Hard { e, pos: p2, lines: l2 } ==> 0 <= p2
            <= s.len() && 0 <= l2,
{
    lemma_spec_uint_moves(s, pos, lines);
    lemma_scan_ws_bounds(s, pos, lines, WsMode::Code);
    match spec_uint(s, pos, lines) {
        Step::Good { v: num, pos: p, lines: l } => {
            lemma_scan_ws_bounds(s, p, l, WsMode::Code);
            let (q, lq) = skip_ws_spec(s, p, l);
            if q < s.len() && s[q] == '/' {
                lemma_spec_uint_moves(s, q + 1, lq);
                lemma_scan_ws_bounds(s, q + 1, lq, WsMode::Code);
            }
        },
        _ => {},
    }
}

/// A successful dispatch always advances the cursor and stays inside the
/// text, so the build loop over the dispatcher terminates.
pub proof fn lemma_spec_next_advances(s: Seq<char>, pos: int, lines: int)
    requires
        0 <= pos <= s.len(),
        0 <= lines,
    ensures
        spec_next(s, pos, lines) matches Step::Good { v, pos: p2, lines: l2 } ==> pos < p2
            <= s.len() && 0 <= l2,
        spec_next(s, pos, lines) matches Step::Hard { e, pos: p2, lines: l2 } ==> 0 <= p2
            <= s.len() && 0 <= l2,
{
    lemma_scan_ws_bounds(s, pos, lines, WsMode::Code);
    let (p, l) = skip_ws_spec(s, pos, lines);
    if p < s.len() && s[p] == '@' {
        lemma_scan_ws_bounds(s, p + 1, l, WsMode::Code);
        let (pi, li) = skip_ws_spec(s, p + 1, l);
        lemma_run_end_bounds(s, pi);
    }
    lemma_spec_notes_bounds(s, pos, lines);
    let (notes, pn, ln) = spec_notes(s, pos, lines);
    lemma_spec_duration_moves(s, pn, ln);
    lemma_spec_ident_moves(s, pos, lines);
    match spec_ident(s, pos, lines) {
        Step::Good { v: a, pos: pa, lines: la } => {
            lemma_spec_ident_moves(s, pa, la);
            lemma_scan_ws_bounds(s, pa, la, WsMode::Code);
            let (q, lq) = skip_ws_spec(s, pa, la);
            if q < s.len() && s[q] == ':' {
                lemma_spec_uint_moves(s, q + 1, lq);
                lemma_scan_ws_bounds(s, q + 1, lq, WsMode::Code);
            }
        },
        _ => {},
    }
}

/// The start of the source line around `pos`: the nearest newline at or
/// before `pos` (kept, so that a diagnostic prints the line on a line of its
/// own), or the start of the text.
pub open spec fn line_lo(s: Seq<char>, pos: int) -> int
    decreases pos,
{
    if pos <= 0 {
        0
    } else if pos < s.len() && s[pos] == '\n' {
        pos
    } else {
        line_lo(s, pos - 1)
    }
}

/// The end of the source line around `pos`: the nearest newline at or after
/// `pos` (excluded), or the end of the text.
pub open spec fn line_hi(s: Seq<char>, pos: int) -> int
    decreases s.len() - pos,
{
    if pos < 0 || pos >= s.len() {
        s.len() as int
    } else if s[pos] == '\n' {
        pos
    } else {
        line_hi(s, pos + 1)
    }
}

/// The text of the source line around `pos`.
pub open spec fn line_around(s: Seq<char>, pos: int) -> Seq<char> {
    s.subrange(line_lo(s, pos), line_hi(s, pos))
}

/// Line bounds bracket `pos` and stay inside the text.
pub proof fn lemma_line_bounds(s: Seq<char>, pos: int)
    requires
        0 <= pos <= s.len(),
    ensures
        0 <= line_lo(s, pos) <= pos,
        pos <= line_hi(s, pos) <= s.len(),
    decreases s.len() + pos,
{
    if pos > 0 && !(pos < s.len() && s[pos] == '\n') {
        lemma_line_bounds(s, pos - 1);
    }
    lemma_line_hi_bounds(s, pos);
}

proof fn lemma_line_hi_bounds(s: Seq<char>, pos: int)
    requires
        0 <= pos <= s.len(),
    ensures
        pos <= line_hi(s, pos) <= s.len(),
    decreases s.len() - pos,
{
    if pos < s.len() && s[pos] != '\n' {
        lemma_line_hi_bounds(s, pos + 1);
    }
}

/// Whether the character at `i` is a newline.
fn nl_at(s: &str, i: usize) -> (r: bool)
    requires
        i < s@.len(),
    ensures
        r == (s@[i as int] == '\n'),
{
    s.get_char(i) == '\n'
}

/// Whether the character at `i` may continue an identifier.
fn ident_char_at(s: &str, i: usize) -> (r: bool)
    requires
        i < s@.len(),
    ensures
        r == is_ident_char(s@[i as int]),
{
    let c = s.get_char(i);
    ('a' <= c && c <= 'z') || ('A' <= c && c <= 'Z') || c == '.' || c == '_'
}

/// Whether the character at `i` is a decimal digit.
fn digit_char_at(s: &str, i: usize) -> (r: bool)
    requires
        i < s@.len(),
    ensures
        r == crate::text::is_digit_char(s@[i as int]),
{
    let c = s.get_char(i);
    '0' <= c && c <= '9'
}

/// The character cursor over the source text.
pub struct Parser<'a> {
    input: &'a str,
    cursor: usize,
    lines: usize,
    size: usize,
}

impl<'a> Parser<'a> {
    /// The cursor is inside the text, the cached length is the character
    /// count, and the line counter never exceeds the characters consumed.
    pub closed spec fn wf(&self) -> bool {
        &&& self.size == self.input@.len()
        &&& self.cursor <= self.size
        &&& self.lines <= self.cursor
    }

    /// The scanned character sequence.
    pub closed spec fn text(&self) -> Seq<char> {
        self.input@
    }

    /// The current character position.
    pub closed spec fn at(&self) -> int {
        self.cursor as int
    }

    /// The newlines consumed so far.
    pub closed spec fn line(&self) -> int {
        self.lines as int
    }

    /// A cursor at the start of `input`.
    pub fn new(input: &'a str) -> (r: Parser<'a>)
        ensures
            r.wf(),
            r.text() == input@,
            r.at() == 0,
            r.line() == 0,
    {
        let size = input.unicode_len();
        Parser { input, cursor: 0, lines: 0, size }
    }

    /// Whether any input remains at the cursor.
    pub fn has_next(&self) -> (r: bool)
        requires
            self.wf(),
        ensures
            r == (self.at() < self.text().len()),
    {
        self.cursor < self.size
    }

    /// Consumes whitespace, `;`, and both comment forms; counts newlines.
    pub fn skip_whitespace(&mut self)
        requires
            old(self).wf(),
        ensures
            final(self).wf(),
            final(self).text() == old(self).text(),
            (final(self).at(), final(self).line()) == skip_ws_spec(
                old(self).text(),
                old(self).at(),
                old(self).line(),
            ),
    {
        let mut mode = WsMode::Code;
        while self.cursor < self.size
            invariant
                self.wf(),
                self.input == old(self).input,
                self.size == old(self).size,
                scan_ws(self.text(), self.at(), self.line(), mode) == skip_ws_spec(
                    old(self).text(),
                    old(self).at(),
                    old(self).line(),
                ),
            decreases self.size - self.cursor,
        {
            let c = self.input.get_char(self.cursor);
            match mode {
                WsMode::Code => {
                    if c == ' ' || c == '\t' || c == '\r' || c == ';' {
                        self.cursor = self.cursor + 1;
                    } else if c == '\n' {
                        self.cursor = self.cursor + 1;
                        self.lines = self.lines + 1;
                    } else if c == '#' {
                        self.cursor = self.cursor + 1;
                        mode = WsMode::Line;
                    } else if c == '<' {
                        self.cursor = self.cursor + 1;
                        mode = WsMode::Block;
                    } else {
                        return ;
                    }
                },
                WsMode::Line => {
                    if c == '\n' {
                        self.cursor = self.cursor + 1;
                        self.lines = self.lines + 1;
                        mode = WsMode::Code;
                    } else {
                        self.cursor = self.cursor + 1;
                    }
                },
                WsMode::Block => {
                    if c == '>' {
                        self.cursor = self.cursor + 1;
                        mode = WsMode::Code;
                    } else if c == '\n' {
                        self.cursor = self.cursor + 1;
                        self.lines = self.lines + 1;
                    } else {
                        self.cursor = self.cursor + 1;
                    }
                },
            }
        }
    }

    /// Reads the identifier at the cursor: the greedy run of letters, `.`
    /// and `_` after skipping whitespace. Zero characters read means the
    /// rule does not apply; the cursor then rests where the run would start.
    pub fn ident(&mut self) -> (r: Result<String, ParseResponse>)
        requires
            old(self).wf(),
        ensures
            final(self).wf(),
            final(self).text() == old(self).text(),
            ({
                let (p, l) = skip_ws_spec(old(self).text(), old(self).at(), old(self).line());
                let e = ident_end(old(self).text(), p);
                &&& final(self).line() == l
                &&& (if e == p {
                    &&& r == Err::<String, ParseResponse>(ParseResponse::NotPossible)
                    &&& final(self).at() == p
                } else {
                    &&& (r matches Ok(s) && s@ == old(self).text().subrange(p, e))
                    &&& final(self).at() == e
                })
            }),
    {
        let ghost text = self.text();
        let ghost ws = skip_ws_spec(self.text(), self.at(), self.line());
        self.skip_whitespace();
        let start = self.cursor;
        while self.cursor < self.size && ident_char_at(self.input, self.cursor)
            invariant
                self.wf(),
                self.text() == text,
                start as int == ws.0,
                self.line() == ws.1,
                start <= self.cursor,
                ident_end(text, start as int) == ident_end(text, self.at()),
            decreases self.size - self.cursor,
        {
            self.cursor = self.cursor + 1;
        }
        if self.cursor == start {
            Err(ParseResponse::NotPossible)
        } else {
            let s = self.input.substring_char(start, self.cursor).to_owned();
            Ok(s)
        }
    }

    /// Reads the unsigned decimal integer at the cursor. Zero digits read
    /// means the rule does not apply; a digit run whose value does not fit
    /// the machine word is a hard integer error on the current line.
    pub fn unsigned_int(&mut self) -> (r: Result<usize, ParseResponse>)
        requires
            old(self).wf(),
        ensures
            final(self).wf(),
            final(self).text() == old(self).text(),
            ({
                let (p, l) = skip_ws_spec(old(self).text(), old(self).at(), old(self).line());
                let e = digits_end(old(self).text(), p);
                let v = crate::text::digits_val(old(self).text().subrange(p, e));
                &&& final(self).line() == l
                &&& (if e == p {
                    &&& r == Err::<usize, ParseResponse>(ParseResponse::NotPossible)
                    &&& final(self).at() == p
                } else {
                    &&& final(self).at() == e
                    &&& (if v <= usize::MAX {
                        r == Ok::<usize, ParseResponse>(v as usize)
                    } else {
                        r == Err::<usize, ParseResponse>(ParseResponse::Int(l as usize))
                    })
                })
            }),
    {
        let ghost text = self.text();
        let ghost ws = skip_ws_spec(self.text(), self.at(), self.line());
        self.skip_whitespace();
        let start = self.cursor;
        let mut acc: usize = 0;
        let mut over = false;
        while self.cursor < self.size && digit_char_at(self.input, self.cursor)
            invariant
                self.wf(),
                self.text() == text,
                start as int == ws.0,
                self.line() == ws.1,
                start <= self.cursor,
                digits_end(text, start as int) == digits_end(text, self.at()),
                !over ==> acc == crate::text::digits_val(text.subrange(start as int, self.at())),
                over ==> crate::text::digits_val(text.subrange(start as int, self.at()))
                    > usize::MAX,
            decreases self.size - self.cursor,
        {
            let c = self.input.get_char(self.cursor);
            let d = ((c as u32) - 48) as usize;
            let ghost pref = self.text().subrange(start as int, self.at());
            proof {
                assert(self.text().subrange(start as int, self.at() + 1) =~= pref.push(
                    self.text()[self.at()],
                ));
                assert(pref.push(self.text()[self.at()]).drop_last() =~= pref);
            }
            if !over {
                if acc > usize::MAX / 10 || (acc == usize::MAX / 10 && d > usize::MAX % 10) {
                    over = true;
                } else {
                    acc = acc * 10 + d;
                }
            }
            self.cursor = self.cursor + 1;
        }
        if self.cursor == start {
            Err(ParseResponse::NotPossible)
        } else if over {
            Err(ParseResponse::Int(self.lines))
        } else {
            Ok(acc)
        }
    }

    /// Tests for the single character `c` after skipping whitespace,
    /// consuming it exactly when it is there.
    pub fn symbol(&mut self, c: char) -> (r: bool)
        requires
            old(self).wf(),
        ensures
            final(self).wf(),
            final(self).text() == old(self).text(),
            ({
                let (p, l) = skip_ws_spec(old(self).text(), old(self).at(), old(self).line());
                &&& final(self).line() == l
                &&& (if p < old(self).text().len() && old(self).text()[p] == c {
                    r && final(self).at() == p + 1
                } else {
                    !r && final(self).at() == p
                })
            }),
    {
        self.skip_whitespace();
        if self.cursor < self.size {
            let m = self.input.get_char(self.cursor);
            if m == c {
                self.cursor = self.cursor + 1;
                true
            } else {
                false
            }
        } else {
            false
        }
    }

    /// Demands a statement terminator: the next character must be a newline
    /// or `;`, and is consumed. At end of input there is nothing to demand
    /// and the call succeeds without moving.
    pub fn force_end(&mut self) -> (r: Result<(), ParseResponse>)
        requires
            old(self).wf(),
        ensures
            final(self).wf(),
            final(self).text() == old(self).text(),
            ({
                let (p, l) = skip_ws_spec(old(self).text(), old(self).at(), old(self).line());
                &&& final(self).line() == l
                &&& (if p >= old(self).text().len() {
                    r == Ok::<(), ParseResponse>(()) && final(self).at() == p
                } else if old(self).text()[p] == '\n' || old(self).text()[p] == ';' {
                    r == Ok::<(), ParseResponse>(()) && final(self).at() == p + 1
                } else {
                    &&& r == Err::<(), ParseResponse>(ParseResponse::EOL(l as usize))
                    &&& final(self).at() == p
                })
            }),
    {
        self.skip_whitespace();
        if self.cursor < self.size {
            let c = self.input.get_char(self.cursor);
            if c != '\n' && c != ';' {
                return Err(ParseResponse::EOL(self.lines));
            }
            self.cursor = self.cursor + 1;
        }
        Ok(())
    }

    /// The label rule: `@`, then an identifier; committed once the `@` is
    /// consumed.
    pub fn label(&mut self) -> (r: Result<String, ParseResponse>)
        requires
            old(self).wf(),
        ensures
            final(self).wf(),
            final(self).text() == old(self).text(),
            match spec_label(old(self).text(), old(self).at(), old(self).line()) {
                Step::Good { v, pos, lines } => {
                    &&& (r matches Ok(s) && s@ == v)
                    &&& final(self).at() == pos
                    &&& final(self).line() == lines
                },
                Step::Absent => {
                    &&& r == Err::<String, ParseResponse>(ParseResponse::NotPossible)
                    &&& final(self).at() == old(self).at()
                    &&& final(self).line() == old(self).line()
                },
                Step::Hard { e, pos, lines } => {
                    &&& r == Err::<String, ParseResponse>(e)
                    &&& final(self).at() == pos
                    &&& final(self).line() == lines
                },
            },
    {
        let save_cursor = self.cursor;
        let save_lines = self.lines;
        if self.symbol('@') {
            match self.ident() {
                Ok(v) => Ok(v),
                Err(_) => Err(ParseResponse::Ident(self.lines)),
            }
        } else {
            self.cursor = save_cursor;
            self.lines = save_lines;
            Err(ParseResponse::NotPossible)
        }
    }

    /// The note rule: a pitch letter (`H` read as `B`), then `#`, `b`, or
    /// nothing.
    pub fn get_note(&mut self) -> (r: Result<Note, ParseResponse>)
        requires
            old(self).wf(),
        ensures
            final(self).wf(),
            final(self).text() == old(self).text(),
            match spec_note(old(self).text(), old(self).at(), old(self).line()) {
                Step::Good { v, pos, lines } => {
                    &&& r == Ok::<Note, ParseResponse>(v)
                    &&& final(self).at() == pos
                    &&& final(self).line() == lines
                },
                Step::Absent => {
                    &&& r == Err::<Note, ParseResponse>(ParseResponse::NotPossible)
                    &&& final(self).at() == old(self).at()
                    &&& final(self).line() == old(self).line()
                },
                Step::Hard { e, pos, lines } => false,
            },
    {
        let save_cursor = self.cursor;
        let save_lines = self.lines;
        self.skip_whitespace();
        if self.cursor < self.size {
            let c = self.input.get_char(self.cursor);
            let name = if c == 'A' {
                Some(NoteName::A)
            } else if c == 'B' || c == 'H' {
                Some(NoteName::B)
            } else if c == 'C' {
                Some(NoteName::C)
            } else if c == 'D' {
                Some(NoteName::D)
            } else if c == 'E' {
                Some(NoteName::E)
            } else if c == 'F' {
                Some(NoteName::F)
            } else if c == 'G' {
                Some(NoteName::G)
            } else {
                None
            };
            match name {
                Some(note) => {
                    self.cursor = self.cursor + 1;
                    if self.cursor < self.size {
                        let m = self.input.get_char(self.cursor);
                        if m == '#' {
                            self.cursor = self.cursor + 1;
                            Ok(Note { note, modifier: NoteModifier::Sharp })
                        } else if m == 'b' {
                            self.cursor = self.cursor + 1;
                            Ok(Note { note, modifier: NoteModifier::Flat })
                        } else {
                            self.skip_whitespace();
                            Ok(Note { note, modifier: NoteModifier::Natural })
                        }
                    } else {
                        self.skip_whitespace();
                        Ok(Note { note, modifier: NoteModifier::Natural })
                    }
                },
                None => {
                    self.cursor = save_cursor;
                    self.lines = save_lines;
                    Err(ParseResponse::NotPossible)
                },
            }
        } else {
            self.cursor = save_cursor;
            self.lines = save_lines;
            Err(ParseResponse::NotPossible)
        }
    }

    /// The duration rule: a number, optionally followed by `/` and a second
    /// number; both are demanded where the grammar demands a duration, so a
    /// missing number is a hard integer error here.
    pub fn duration(&mut self) -> (r: Result<(usize, usize), ParseResponse>)
        requires
            old(self).wf(),
        ensures
            final(self).wf(),
            final(self).text() == old(self).text(),
            match spec_duration(old(self).text(), old(self).at(), old(self).line()) {
                Step::Good { v, pos, lines } => {
                    &&& r == Ok::<(usize, usize), ParseResponse>(v)
                    &&& final(self).at() == pos
                    &&& final(self).line() == lines
                },
                Step::Absent => false,
                Step::Hard { e, pos, lines } => {
                    &&& r == Err::<(usize, usize), ParseResponse>(e)
                    &&& final(self).at() == pos
                    &&& final(self).line() == lines
                },
            },
    {
        let num = match self.unsigned_int() {
            Ok(v) => v,
            Err(ParseResponse::NotPossible) => {
                return Err(ParseResponse::Int(self.lines));
            },
            Err(e) => {
                return Err(e);
            },
        };
        let den = if self.symbol('/') {
            match self.unsigned_int() {
                Ok(v) => v,
                Err(ParseResponse::NotPossible) => {
                    return Err(ParseResponse::Int(self.lines));
                },
                Err(e) => {
                    return Err(e);
                },
            }
        } else {
            1
        };
        Ok((num, den))
    }

    /// The chord rule: one or more notes, then a mandatory duration.
    pub fn chord(&mut self) -> (r: Result<Chord, ParseResponse>)
        requires
            old(self).wf(),
        ensures
            final(self).wf(),
            final(self).text() == old(self).text(),
            match spec_chord(old(self).text(), old(self).at(), old(self).line()) {
                Step::Good { v, pos, lines } => {
                    &&& (r matches Ok(c) && c@ == v)
                    &&& final(self).at() == pos
                    &&& final(self).line() == lines
                },
                Step::Absent => {
                    &&& r == Err::<Chord, ParseResponse>(ParseResponse::NotPossible)
                    &&& final(self).at() == old(self).at()
                    &&& final(self).line() == old(self).line()
                },
                Step::Hard { e, pos, lines } => {
                    &&& (r matches Err(e2) && e2 == e)
                    &&& final(self).at() == pos
                    &&& final(self).line() == lines
                },
            },
    {
        let ghost text = self.text();
        let ghost p0 = self.at();
        let ghost l0 = self.line();
        let mut notes: Vec<Note> = Vec::new();
        loop
            invariant
                self.wf(),
                self.text() == text,
                0 <= l0 <= p0 <= text.len(),
                spec_notes(text, p0, l0).0 == notes@ + spec_notes(text, self.at(), self.line()).0,
                spec_notes(text, p0, l0).1 == spec_notes(text, self.at(), self.line()).1,
                spec_notes(text, p0, l0).2 == spec_notes(text, self.at(), self.line()).2,
                notes@.len() == 0 ==> self.at() == p0 && self.line() == l0,
            ensures
                self.wf(),
                self.text() == text,
                notes@ == spec_notes(text, p0, l0).0,
                self.at() == spec_notes(text, p0, l0).1,
                self.line() == spec_notes(text, p0, l0).2,
                notes@.len() == 0 ==> self.at() == p0 && self.line() == l0,
            decreases text.len() - self.at(),
        {
            let ghost at_before = self.at();
            let ghost line_before = self.line();
            proof {
                lemma_spec_note_advances(text, at_before, line_before);
            }
            match self.get_note() {
                Ok(n) => {
                    proof {
                        let (rest, p3, l3) = spec_notes(text, self.at(), self.line());
                        assert(spec_notes(text, at_before, line_before).0 =~= seq![n] + rest);
                        assert(notes@.push(n) + rest =~= notes@ + (seq![n] + rest));
                    }
                    notes.push(n);
                },
                Err(_) => {
                    proof {
                        assert(spec_notes(text, at_before, line_before).0 =~= Seq::<Note>::empty());
                        assert(notes@ + Seq::<Note>::empty() =~= notes@);
                    }
                    break ;
                },
            }
        }
        if notes.len() == 0 {
            return Err(ParseResponse::NotPossible);
        }
        match self.duration() {
            Ok((num, den)) => Ok(Chord { notes, num, den }),
            Err(e) => Err(e),
        }
    }

    /// The pair rule: two identifiers, all or nothing.
    pub fn pair(&mut self) -> (r: Result<(String, String), ParseResponse>)
        requires
            old(self).wf(),
        ensures
            final(self).wf(),
            final(self).text() == old(self).text(),
            match spec_pair(old(self).text(), old(self).at(), old(self).line()) {
                Step::Good { v, pos, lines } => {
                    &&& (r matches Ok(p) && p.0@ == v.0 && p.1@ == v.1)
                    &&& final(self).at() == pos
                    &&& final(self).line() == lines
                },
                Step::Absent => {
                    &&& r == Err::<(String, String), ParseResponse>(ParseResponse::NotPossible)
                    &&& final(self).at() == old(self).at()
                    &&& final(self).line() == old(self).line()
                },
                Step::Hard { e, pos, lines } => false,
            },
    {
        let save_cursor = self.cursor;
        let save_lines = self.lines;
        let fst = match self.ident() {
            Ok(v) => v,
            Err(e) => {
                self.cursor = save_cursor;
                self.lines = save_lines;
                return Err(ParseResponse::NotPossible);
            },
        };
        let snd = match self.ident() {
            Ok(v) => v,
            Err(e) => {
                self.cursor = save_cursor;
                self.lines = save_lines;
                return Err(ParseResponse::NotPossible);
            },
        };
        Ok((fst, snd))
    }

    /// The variable-declaration rule: an identifier, `:`, then a number
    /// that must fit the signed value range.
    pub fn variable(&mut self) -> (r: Result<Variable, ParseResponse>)
        requires
            old(self).wf(),
        ensures
            final(self).wf(),
            final(self).text() == old(self).text(),
            match spec_variable(old(self).text(), old(self).at(), old(self).line()) {
                Step::Good { v, pos, lines } => {
                    &&& (r matches Ok(w) && w@ == v)
                    &&& final(self).at() == pos
                    &&& final(self).line() == lines
                },
                Step::Absent => {
                    &&& r == Err::<Variable, ParseResponse>(ParseResponse::NotPossible)
                    &&& final(self).at() == old(self).at()
                    &&& final(self).line() == old(self).line()
                },
                Step::Hard { e, pos, lines } => {
                    &&& (r matches Err(e2) && e2 == e)
                    &&& final(self).at() == pos
                    &&& final(self).line() == lines
                },
            },
    {
        let save_cursor = self.cursor;
        let save_lines = self.lines;
        let name = match self.ident() {
            Ok(v) => v,
            Err(e) => {
                self.cursor = save_cursor;
                self.lines = save_lines;
                return Err(ParseResponse::NotPossible);
            },
        };
        if !self.symbol(':') {
            self.cursor = save_cursor;
            self.lines = save_lines;
            return Err(ParseResponse::NotPossible);
        }
        let v = match self.unsigned_int() {
            Ok(v) => v,
            Err(ParseResponse::NotPossible) => {
                return Err(ParseResponse::Int(self.lines));
            },
            Err(e) => {
                return Err(e);
            },
        };
        if v as u64 <= i64::MAX as u64 {
            Ok(Variable { name, value: v as i64 })
        } else {
            Err(ParseResponse::Int(self.lines))
        }
    }

    /// The dispatcher: tries label, chord, pair, then variable declaration;
    /// the first success wins. When no rule applies it reports `Done` at end
    /// of input and an unexpected-character error otherwise.
    pub fn next(&mut self) -> (r: Result<MusicalValues, ParseResponse>)
        requires
            old(self).wf(),
        ensures
            final(self).wf(),
            final(self).text() == old(self).text(),
            match spec_next(old(self).text(), old(self).at(), old(self).line()) {
                Step::Good { v, pos, lines } => {
                    &&& (r matches Ok(mv) && mv@ == v)
                    &&& final(self).at() == pos
                    &&& final(self).line() == lines
                },
                Step::Absent => false,
                Step::Hard { e, pos, lines } => {
                    &&& (r matches Err(e2) && e2 == e)
                    &&& final(self).at() == pos
                    &&& final(self).line() == lines
                },
            },
    {
        match self.label() {
            Ok(v) => {
                return Ok(MusicalValues::Label(v));
            },
            Err(ParseResponse::NotPossible) => {},
            Err(e) => {
                return Err(e);
            },
        }
        match self.chord() {
            Ok(v) => {
                return Ok(MusicalValues::Chord(v));
            },
            Err(ParseResponse::NotPossible) => {},
            Err(e) => {
                return Err(e);
            },
        }
        match self.pair() {
            Ok(v) => {
                return Ok(MusicalValues::Pair(v));
            },
            Err(ParseResponse::NotPossible) => {},
            Err(e) => {
                return Err(e);
            },
        }
        match self.variable() {
            Ok(v) => {
                return Ok(MusicalValues::Var(v));
            },
            Err(ParseResponse::NotPossible) => {},
            Err(e) => {
                return Err(e);
            },
        }
        self.skip_whitespace();
        if !self.has_next() {
            Err(ParseResponse::Done)
        } else {
            Err(ParseResponse::Unexpected(self.lines))
        }
    }

    /// The text of the source line the cursor rests on, for diagnostics.
    pub fn get_err_line(&self) -> (r: String)
        requires
            self.wf(),
        ensures
            r@ == line_around(self.text(), self.at()),
    {
        proof {
            lemma_line_bounds(self.text(), self.at());
        }
        let mut lo = self.cursor;
        while lo > 0 && (lo >= self.size || !nl_at(self.input, lo))
            invariant
                self.wf(),
                lo <= self.cursor,
                line_lo(self.text(), self.at()) == line_lo(self.text(), lo as int),
            decreases lo,
        {
            lo = lo - 1;
        }
        let mut hi = self.cursor;
        while hi < self.size && !nl_at(self.input, hi)
            invariant
                self.wf(),
                self.cursor <= hi <= self.size,
                line_hi(self.text(), self.at()) == line_hi(self.text(), hi as int),
            decreases self.size - hi,
        {
            hi = hi + 1;
        }
        proof {
            lemma_line_bounds(self.text(), self.at());
        }
        self.input.substring_char(lo, hi).to_owned()
    }
}

} // verus!
