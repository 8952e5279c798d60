//! The program builder, indexer and interpreter.
//!
//! Building drives the grammar dispatcher over the whole source, collecting
//! the instruction sequence and the label table; a program without a `@main`
//! label is rejected. Running loads the global variables from the pre-label
//! preamble and then executes from the instruction after `@main`; `goto` is
//! a bounded subroutine call with its own scoped-variable table. Everything
//! the run would print or play is collected as a sequence of events.

use crate::data::Chord;
use crate::data::ChordV;
use crate::data::InstrV;
use crate::data::MusicalValues;
use crate::data::instr_views;
use crate::dict::Dict;
use crate::error::CompilerError;
use crate::error::ParseResponse;
use crate::parser::Parser;
use crate::parser::Step;
use crate::parser::lemma_spec_next_advances;
use crate::parser::line_around;
use crate::parser::spec_next;
use vstd::prelude::*;

verus! {

/// The greatest `goto` nesting the interpreter allows before it stops with
/// a recursion-limit error.
pub const MAX_GOTO_DEPTH: u64 = 100;

/// The characters of the entry label's name.
pub open spec fn main_chars() -> Seq<char> {
    seq!['m', 'a', 'i', 'n']
}

/// What building a program from source yields: the instruction sequence, or
/// the first hard parse error with the position and line it was raised at.
pub enum BuildV {
    Done(Seq<InstrV>),
    Fail(ParseResponse, int, int),
}

/// The instruction sequence parsed from `s` starting at `pos`, driving the
/// dispatcher until the input is exhausted or a hard error occurs.
pub open spec fn spec_build(s: Seq<char>, pos: int, lines: int) -> BuildV
    decreases s.len() - pos,
    when 0 <= pos <= s.len() && 0 <= lines
{
    if pos >= s.len() {
        BuildV::Done(Seq::empty())
    } else {
        match spec_next(s, pos, lines) {
            Step::Good { v, pos: p2, lines: l2 } => {
                proof {
                    lemma_spec_next_advances(s, pos, lines);
                }
                match spec_build(s, p2, l2) {
                    BuildV::Done(rest) => BuildV::Done(seq![v] + rest),
                    BuildV::Fail(e, p, l) => BuildV::Fail(e, p, l),
                }
            },
            Step::Absent => BuildV::Done(Seq::empty()),
            Step::Hard { e, pos: p2, lines: l2 } => {
                if e == ParseResponse::Done {
                    BuildV::Done(Seq::empty())
                } else {
                    BuildV::Fail(e, p2, l2)
                }
            },
        }
    }
}

/// The label table of an instruction sequence: every label name mapped to
/// its index, a later duplicate overwriting an earlier one.
pub open spec fn spec_labels(instrs: Seq<InstrV>) -> Map<Seq<char>, usize>
    decreases instrs.len(),
{
    if instrs.len() == 0 {
        Map::empty()
    } else {
        let m = spec_labels(instrs.drop_last());
        match instrs.last() {
            InstrV::Label(n) => m.insert(n, (instrs.len() - 1) as usize),
            _ => m,
        }
    }
}

/// Every index in the label table points into the sequence, at an
/// instruction that is that very label.
pub proof fn lemma_spec_labels_valid(instrs: Seq<InstrV>)
    requires
        instrs.len() <= usize::MAX,
    ensures
        forall|k: Seq<char>| #[trigger]
            spec_labels(instrs).contains_key(k) ==> spec_labels(instrs)[k] < instrs.len()
                && instrs[spec_labels(instrs)[k] as int] == InstrV::Label(k),
    decreases instrs.len(),
{
    if instrs.len() > 0 {
        let pre = instrs.drop_last();
        lemma_spec_labels_valid(pre);
        assert(instrs.last() == instrs[instrs.len() - 1]);
        assert forall|k: Seq<char>| #[trigger]
            spec_labels(instrs).contains_key(k) implies spec_labels(instrs)[k] < instrs.len()
            && instrs[spec_labels(instrs)[k] as int] == InstrV::Label(k) by {
            let keeps = !(instrs.last() matches InstrV::Label(n) && n == k);
            if keeps {
                assert(spec_labels(pre).contains_key(k));
                assert(pre[spec_labels(pre)[k] as int] == instrs[spec_labels(pre)[k] as int]);
            }
        }
    }
}

/// A label that no later instruction repeats is indexed at exactly its own
/// position. In particular, in a program whose `@main` is unique, the label
/// table sends "main" to the index of the `@main` instruction.
pub proof fn lemma_last_label_indexed(instrs: Seq<InstrV>, name: Seq<char>, i: int)
    requires
        instrs.len() <= usize::MAX,
        0 <= i < instrs.len(),
        instrs[i] == InstrV::Label(name),
        forall|j: int| i < j < instrs.len() ==> instrs[j] != InstrV::Label(name),
    ensures
        spec_labels(instrs).contains_key(name),
        spec_labels(instrs)[name] == i,
    decreases instrs.len(),
{
    if i == instrs.len() - 1 {
        assert(instrs.last() == instrs[instrs.len() - 1]);
    } else {
        let pre = instrs.drop_last();
        assert(pre[i] == instrs[i]);
        assert forall|j: int| i < j < pre.len() implies pre[j] != InstrV::Label(name) by {
            assert(pre[j] == instrs[j]);
        }
        lemma_last_label_indexed(pre, name, i);
        assert(instrs.last() == instrs[instrs.len() - 1]);
        assert(instrs[instrs.len() - 1] != InstrV::Label(name));
    }
}

/// Every label instruction puts its name into the label table, whether or
/// not the name repeats. With the previous lemma this is the first half of
/// the entry-label guarantee: a program containing `@main` always builds.
pub proof fn lemma_labelled_present(instrs: Seq<InstrV>, name: Seq<char>, i: int)
    requires
        0 <= i < instrs.len(),
        instrs[i] == InstrV::Label(name),
    ensures
        spec_labels(instrs).contains_key(name),
    decreases instrs.len(),
{
    if i == instrs.len() - 1 {
        assert(instrs.last() == instrs[instrs.len() - 1]);
    } else {
        let pre = instrs.drop_last();
        assert(pre[i] == instrs[i]);
        lemma_labelled_present(pre, name, i);
    }
}

/// A name that labels no instruction is absent from the label table. In
/// particular, a program without any `@main` label cannot be built: the
/// builder then returns the no-main-label error, however well formed the
/// rest of the program is.
pub proof fn lemma_unlabelled_absent(instrs: Seq<InstrV>, name: Seq<char>)
    requires
        forall|j: int| 0 <= j < instrs.len() ==> instrs[j] != InstrV::Label(name),
    ensures
        !spec_labels(instrs).contains_key(name),
    decreases instrs.len(),
{
    if instrs.len() > 0 {
        lemma_unlabelled_absent(instrs.drop_last(), name);
    }
}

/// Appending one instruction extends the label table by that label, if it
/// is one.
proof fn lemma_spec_labels_push(instrs: Seq<InstrV>, v: InstrV)
    ensures
        spec_labels(instrs.push(v)) == match v {
            InstrV::Label(n) => spec_labels(instrs).insert(n, instrs.len() as usize),
            _ => spec_labels(instrs),
        },
{
    assert(instrs.push(v).drop_last() =~= instrs);
}

/// The characters of the four built-in verbs and of the two chord globals.
pub open spec fn goto_chars() -> Seq<char> {
    seq!['g', 'o', 't', 'o']
}

pub open spec fn inc_chars() -> Seq<char> {
    seq!['i', 'n', 'c']
}

pub open spec fn dec_chars() -> Seq<char> {
    seq!['d', 'e', 'c']
}

pub open spec fn dbg_chars() -> Seq<char> {
    seq!['d', 'b', 'g']
}

pub open spec fn pitch_chars() -> Seq<char> {
    seq!['p', 'i', 't', 'c', 'h']
}

pub open spec fn octave_chars() -> Seq<char> {
    seq!['o', 'c', 't', 'a', 'v', 'e']
}

/// Which built-in a pair instruction's first identifier names. Verbs are
/// read without regard to ASCII case.
#[derive(Debug, Clone, Copy, PartialEq, Eq, Structural)]
pub enum VerbKind {
    Goto,
    Inc,
    Dec,
    Dbg,
    Other,
}

/// The verb named by the characters `s`, case-folded.
pub open spec fn spec_verb(s: Seq<char>) -> VerbKind {
    if crate::text::lower_seq(s) == goto_chars() {
        VerbKind::Goto
    } else if crate::text::lower_seq(s) == inc_chars() {
        VerbKind::Inc
    } else if crate::text::lower_seq(s) == dec_chars() {
        VerbKind::Dec
    } else if crate::text::lower_seq(s) == dbg_chars() {
        VerbKind::Dbg
    } else {
        VerbKind::Other
    }
}

/// Reads the verb named by `s`, without regard to ASCII case.
pub fn verb_kind(s: &str) -> (r: VerbKind)
    ensures
        r == spec_verb(s@),
{
    proof {
        reveal_strlit("goto");
        reveal_strlit("inc");
        reveal_strlit("dec");
        reveal_strlit("dbg");
        assert("goto"@ =~= goto_chars());
        assert("inc"@ =~= inc_chars());
        assert("dec"@ =~= dec_chars());
        assert("dbg"@ =~= dbg_chars());
    }
    if crate::text::lowered_matches(s, "goto") {
        VerbKind::Goto
    } else if crate::text::lowered_matches(s, "inc") {
        VerbKind::Inc
    } else if crate::text::lowered_matches(s, "dec") {
        VerbKind::Dec
    } else if crate::text::lowered_matches(s, "dbg") {
        VerbKind::Dbg
    } else {
        VerbKind::Other
    }
}

/// The one global and the one call-scoped variable table.
#[derive(Debug)]
pub struct VariableType {
    pub global: Dict<i64>,
    pub scoped: Dict<i64>,
}

impl VariableType {
    /// Two empty tables.
    pub fn new() -> (r: Self)
        ensures
            r.global@ == Map::<Seq<char>, i64>::empty(),
            r.scoped@ == Map::<Seq<char>, i64>::empty(),
    {
        let global = Dict::new();
        let scoped = Dict::new();
        VariableType { global, scoped }
    }

    /// The value of the global variable `var`, or the missing-global error
    /// naming it.
    pub fn get_global(&self, var: &str) -> (r: Result<i64, CompilerError>)
        ensures
            match r {
                Result::Ok(v) => self.global@.contains_key(var@) && self.global@[var@] == v,
                Result::Err(e) => !self.global@.contains_key(var@) && (e matches
                    CompilerError::GlobalPropertyMissing(n) && n@ == var@),
            },
    {
        match self.global.get(var) {
            Option::Some(v) => Ok(v),
            Option::None => Err(CompilerError::GlobalPropertyMissing(var.to_owned())),
        }
    }
}

/// One observable action of a run, in execution order: a debug print, a
/// warning, or a chord handed to the audio collaborator together with the
/// global pitch and octave.
#[derive(Debug, PartialEq, Eq)]
pub enum RunEvent {
    /// `dbg` found the variable in the scoped table.
    DbgScoped(String, i64),
    /// `dbg` found the variable in the global table.
    DbgGlobal(String, i64),
    /// `dbg` found the variable nowhere.
    DbgMissing(String),
    /// `goto` named a label that does not exist; the jump was skipped.
    UnknownLabel(String),
    /// `inc` or `dec` named a variable that does not exist; nothing changed.
    UnknownVariable(String),
    /// An instruction before the first label was not a variable declaration
    /// and was skipped while loading the globals.
    IgnoredPreamble(MusicalValues),
    /// A chord to play, with the global pitch and octave at that moment.
    Play(Chord, i64, i64),
}

/// Mathematical view of a [`RunEvent`].
pub enum EventV {
    DbgScoped(Seq<char>, i64),
    DbgGlobal(Seq<char>, i64),
    DbgMissing(Seq<char>),
    UnknownLabel(Seq<char>),
    UnknownVariable(Seq<char>),
    IgnoredPreamble(InstrV),
    Play(ChordV, i64, i64),
}

impl View for RunEvent {
    type V = EventV;

    open spec fn view(&self) -> EventV {
        match self {
            RunEvent::DbgScoped(n, v) => EventV::DbgScoped(n@, *v),
            RunEvent::DbgGlobal(n, v) => EventV::DbgGlobal(n@, *v),
            RunEvent::DbgMissing(n) => EventV::DbgMissing(n@),
            RunEvent::UnknownLabel(n) => EventV::UnknownLabel(n@),
            RunEvent::UnknownVariable(n) => EventV::UnknownVariable(n@),
            RunEvent::IgnoredPreamble(i) => EventV::IgnoredPreamble(i@),
            RunEvent::Play(c, p, o) => EventV::Play(c@, *p, *o),
        }
    }
}

/// The views of a sequence of events, element by element.
pub open spec fn event_views(s: Seq<RunEvent>) -> Seq<EventV> {
    s.map(|i: int, v: RunEvent| v@)
}

/// The display line of an event: what a driver prints for it. A playback
/// event has no line of its own — it is handed to the audio collaborator
/// instead.
pub open spec fn event_text(e: EventV) -> Seq<char> {
    match e {
        EventV::DbgScoped(n, v) => "SCOPED "@ + n + ": "@ + crate::text::dec_rep_i(v),
        EventV::DbgGlobal(n, v) => "GLOBAL "@ + n + ": "@ + crate::text::dec_rep_i(v),
        EventV::DbgMissing(n) => "VARIABLE "@ + n + " doesn't exist."@,
        EventV::UnknownLabel(n) => "Warning: ignoring 'goto "@ + n + "': label doesn't exist"@,
        EventV::UnknownVariable(n) => "Warning: ignoring update of '"@ + n
            + "': variable does not exist"@,
        EventV::IgnoredPreamble(i) => "Warning: ignoring instruction "@ + crate::data::instr_text(
            i,
        ),
        EventV::Play(_, _, _) => Seq::empty(),
    }
}

impl RunEvent {
    /// Renders the display line of the event.
    pub fn describe(&self) -> (r: String)
        ensures
            r@ == event_text(self@),
    {
        let mut s = String::new();
        match self {
            RunEvent::DbgScoped(n, v) => {
                crate::text::push_str(&mut s, "SCOPED ");
                crate::text::push_str(&mut s, n.as_str());
                crate::text::push_str(&mut s, ": ");
                crate::text::append_i64(&mut s, *v);
            },
            RunEvent::DbgGlobal(n, v) => {
                crate::text::push_str(&mut s, "GLOBAL ");
                crate::text::push_str(&mut s, n.as_str());
                crate::text::push_str(&mut s, ": ");
                crate::text::append_i64(&mut s, *v);
            },
            RunEvent::DbgMissing(n) => {
                crate::text::push_str(&mut s, "VARIABLE ");
                crate::text::push_str(&mut s, n.as_str());
                crate::text::push_str(&mut s, " doesn't exist.");
            },
            RunEvent::UnknownLabel(n) => {
                crate::text::push_str(&mut s, "Warning: ignoring 'goto ");
                crate::text::push_str(&mut s, n.as_str());
                crate::text::push_str(&mut s, "': label doesn't exist");
            },
            RunEvent::UnknownVariable(n) => {
                crate::text::push_str(&mut s, "Warning: ignoring update of '");
                crate::text::push_str(&mut s, n.as_str());
                crate::text::push_str(&mut s, "': variable does not exist");
            },
            RunEvent::IgnoredPreamble(i) => {
                crate::text::push_str(&mut s, "Warning: ignoring instruction ");
                let t = i.describe();
                crate::text::push_str(&mut s, t.as_str());
            },
            RunEvent::Play(_, _, _) => {},
        }
        proof {
            assert(s@ =~= event_text(self@));
        }
        s
    }
}

/// A built program with its label table, its variable tables, and the
/// events recorded so far.
#[derive(Debug)]
pub struct Compiler {
    pub ast: Vec<MusicalValues>,
    variables: VariableType,
    cursor: usize,
    function_pointer: Dict<usize>,
    pub events: Vec<RunEvent>,
}

impl Compiler {
    /// The instruction views of the built program.
    pub closed spec fn ast_v(&self) -> Seq<InstrV> {
        instr_views(self.ast@)
    }

    /// The label table.
    pub closed spec fn labels_v(&self) -> Map<Seq<char>, usize> {
        self.function_pointer@
    }

    /// The global variable table.
    pub closed spec fn globals_v(&self) -> Map<Seq<char>, i64> {
        self.variables.global@
    }

    /// The scoped variable table.
    pub closed spec fn scoped_v(&self) -> Map<Seq<char>, i64> {
        self.variables.scoped@
    }

    /// The views of the recorded events.
    pub closed spec fn events_v(&self) -> Seq<EventV> {
        event_views(self.events@)
    }

    /// The label table is exactly the program's, and the program has an
    /// entry label.
    pub closed spec fn wf(&self) -> bool {
        &&& self.function_pointer@ == spec_labels(self.ast_v())
        &&& self.function_pointer@.contains_key(main_chars())
    }

    /// Builds a program from source: parses the whole text into the
    /// instruction sequence and the label table. The first hard parse error
    /// aborts the build, carrying the text of the offending line; a program
    /// without `@main` is rejected with the no-main-label error.
    pub fn new(input: &str) -> (r: Result<Compiler, CompilerError>)
        ensures
            match spec_build(input@, 0, 0) {
                BuildV::Fail(e, p, l) => (r matches Err(ce) && ce matches CompilerError::Failed(
                    e2,
                    t,
                ) && e2 == e && t@ == line_around(input@, p)),
                BuildV::Done(instrs) => {
                    if spec_labels(instrs).contains_key(main_chars()) {
                        &&& (r matches Ok(c) && {
                            &&& c.wf()
                            &&& c.ast_v() == instrs
                            &&& c.labels_v() == spec_labels(instrs)
                            &&& c.events_v() == Seq::<EventV>::empty()
                            &&& c.globals_v() == Map::<Seq<char>, i64>::empty()
                            &&& c.scoped_v() == Map::<Seq<char>, i64>::empty()
                        })
                    } else {
                        r == Err::<Compiler, CompilerError>(CompilerError::NoMain)
                    }
                },
            },
    {
        let mut parser = Parser::new(input);
        let mut ast: Vec<MusicalValues> = Vec::new();
        let mut function_pointer: Dict<usize> = Dict::new();
        loop
            invariant
                parser.wf(),
                parser.text() == input@,
                0 <= parser.at() <= input@.len(),
                0 <= parser.line(),
                function_pointer@ == spec_labels(instr_views(ast@)),
                match spec_build(input@, parser.at(), parser.line()) {
                    BuildV::Done(rest) => spec_build(input@, 0, 0) == BuildV::Done(
                        instr_views(ast@) + rest,
                    ),
                    BuildV::Fail(e, p, l) => spec_build(input@, 0, 0) == BuildV::Fail(e, p, l),
                },
            ensures
                parser.wf(),
                parser.text() == input@,
                function_pointer@ == spec_labels(instr_views(ast@)),
                spec_build(input@, 0, 0) == BuildV::Done(instr_views(ast@)),
            decreases input@.len() - parser.at(),
        {
            if !parser.has_next() {
                proof {
                    assert(instr_views(ast@) + Seq::<InstrV>::empty() =~= instr_views(ast@));
                }
                break ;
            }
            let ghost at0 = parser.at();
            let ghost line0 = parser.line();
            proof {
                lemma_spec_next_advances(input@, at0, line0);
            }
            match parser.next() {
                Ok(v) => {
                    let ghost old_ast = ast@;
                    if let MusicalValues::Label(name) = &v {
                        function_pointer.insert(name.clone(), ast.len());
                    }
                    ast.push(v);
                    proof {
                        assert(instr_views(ast@) =~= instr_views(old_ast).push(ast@.last()@));
                        lemma_spec_labels_push(instr_views(old_ast), ast@.last()@);
                        if let BuildV::Done(rest) = spec_build(
                            input@,
                            parser.at(),
                            parser.line(),
                        ) {
                            assert(instr_views(old_ast) + (seq![ast@.last()@] + rest)
                                =~= instr_views(ast@) + rest);
                        }
                    }
                },
                Err(e) => {
                    if let ParseResponse::Done = e {
                        proof {
                            assert(instr_views(ast@) + Seq::<InstrV>::empty() =~= instr_views(
                                ast@,
                            ));
                        }
                        break ;
                    }
                    let line_text = parser.get_err_line();
                    return Err(CompilerError::Failed(e, line_text));
                },
            }
        }
        proof {
            reveal_strlit("main");
            assert("main"@ =~= main_chars());
        }
        if !function_pointer.contains("main") {
            return Err(CompilerError::NoMain);
        }
        let variables = VariableType::new();
        Ok(Compiler { ast, variables, cursor: 0, function_pointer, events: Vec::new() })
    }
}

/// A runtime error of the interpreter, over views.
pub enum RunErrV {
    NoFunc(Seq<char>),
    MissingGlobal(Seq<char>),
    TooDeep,
}

/// The effect of running one body of instructions: the final variable
/// tables, the events it appended, and the error that stopped it, if any.
pub struct BodyOut {
    pub scoped: Map<Seq<char>, i64>,
    pub globals: Map<Seq<char>, i64>,
    pub events: Seq<EventV>,
    pub err: Option<RunErrV>,
}

/// `v` moved up by one, saturating at the top of the value range.
pub open spec fn sat_inc(v: i64) -> i64 {
    if v == i64::MAX {
        v
    } else {
        (v + 1) as i64
    }
}

/// `v` moved down by one, saturating at the bottom of the value range.
pub open spec fn sat_dec(v: i64) -> i64 {
    if v == i64::MIN {
        v
    } else {
        (v - 1) as i64
    }
}

/// The small-step/big-step semantics of one body: execute instructions from
/// `pc` until the body halts (a label, or the end of the program), a runtime
/// error occurs, or a `goto` with exhausted `depth` stops the run. A `goto`
/// to a known label runs the target body with a fresh scoped table and at
/// `depth - 1`; the caller's scoped table is restored afterwards, while
/// changes to the globals persist.
pub open spec fn run_body_spec(
    instrs: Seq<InstrV>,
    labels: Map<Seq<char>, usize>,
    scoped: Map<Seq<char>, i64>,
    globals: Map<Seq<char>, i64>,
    pc: int,
    depth: nat,
) -> BodyOut
    decreases depth, instrs.len() - pc,
    when 0 <= pc
{
    if pc >= instrs.len() {
        BodyOut { scoped, globals, events: Seq::empty(), err: Option::None }
    } else {
        match instrs[pc] {
            InstrV::Label(_) => BodyOut {
                scoped,
                globals,
                events: Seq::empty(),
                err: Option::None,
            },
            InstrV::Var(v) => run_body_spec(
                instrs,
                labels,
                scoped.insert(v.name, v.value),
                globals,
                pc + 1,
                depth,
            ),
            InstrV::Chord(c) => {
                if !globals.contains_key(pitch_chars()) {
                    BodyOut {
                        scoped,
                        globals,
                        events: Seq::empty(),
                        err: Option::Some(RunErrV::MissingGlobal(pitch_chars())),
                    }
                } else if !globals.contains_key(octave_chars()) {
                    BodyOut {
                        scoped,
                        globals,
                        events: Seq::empty(),
                        err: Option::Some(RunErrV::MissingGlobal(octave_chars())),
                    }
                } else {
                    let rest = run_body_spec(instrs, labels, scoped, globals, pc + 1, depth);
                    BodyOut {
                        scoped: rest.scoped,
                        globals: rest.globals,
                        events: seq![
                            EventV::Play(c, globals[pitch_chars()], globals[octave_chars()]),
                        ] + rest.events,
                        err: rest.err,
                    }
                }
            },
            InstrV::Pair(verb, arg) => match spec_verb(verb) {
                VerbKind::Goto => {
                    if !labels.contains_key(arg) {
                        let rest = run_body_spec(instrs, labels, scoped, globals, pc + 1, depth);
                        BodyOut {
                            scoped: rest.scoped,
                            globals: rest.globals,
                            events: seq![EventV::UnknownLabel(arg)] + rest.events,
                            err: rest.err,
                        }
                    } else if depth == 0 {
                        BodyOut {
                            scoped,
                            globals,
                            events: Seq::empty(),
                            err: Option::Some(RunErrV::TooDeep),
                        }
                    } else {
                        let target = labels[arg] as int;
                        let nested = run_body_spec(
                            instrs,
                            labels,
                            Map::empty(),
                            globals,
                            target + 1,
                            (depth - 1) as nat,
                        );
                        if nested.err is Some {
                            BodyOut {
                                scoped: nested.scoped,
                                globals: nested.globals,
                                events: nested.events,
                                err: nested.err,
                            }
                        } else {
                            let rest = run_body_spec(
                                instrs,
                                labels,
                                scoped,
                                nested.globals,
                                pc + 1,
                                depth,
                            );
                            BodyOut {
                                scoped: rest.scoped,
                                globals: rest.globals,
                                events: nested.events + rest.events,
                                err: rest.err,
                            }
                        }
                    }
                },
                VerbKind::Inc => {
                    if scoped.contains_key(arg) {
                        run_body_spec(
                            instrs,
                            labels,
                            scoped.insert(arg, sat_inc(scoped[arg])),
                            globals,
                            pc + 1,
                            depth,
                        )
                    } else if globals.contains_key(arg) {
                        run_body_spec(
                            instrs,
                            labels,
                            scoped,
                            globals.insert(arg, sat_inc(globals[arg])),
                            pc + 1,
                            depth,
                        )
                    } else {
                        let rest = run_body_spec(instrs, labels, scoped, globals, pc + 1, depth);
                        BodyOut {
                            scoped: rest.scoped,
                            globals: rest.globals,
                            events: seq![EventV::UnknownVariable(arg)] + rest.events,
                            err: rest.err,
                        }
                    }
                },
                VerbKind::Dec => {
                    if scoped.contains_key(arg) {
                        run_body_spec(
                            instrs,
                            labels,
                            scoped.insert(arg, sat_dec(scoped[arg])),
                            globals,
                            pc + 1,
                            depth,
                        )
                    } else if globals.contains_key(arg) {
                        run_body_spec(
                            instrs,
                            labels,
                            scoped,
                            globals.insert(arg, sat_dec(globals[arg])),
                            pc + 1,
                            depth,
                        )
                    } else {
                        let rest = run_body_spec(instrs, labels, scoped, globals, pc + 1, depth);
                        BodyOut {
                            scoped: rest.scoped,
                            globals: rest.globals,
                            events: seq![EventV::UnknownVariable(arg)] + rest.events,
                            err: rest.err,
                        }
                    }
                },
                VerbKind::Dbg => {
                    let e = if scoped.contains_key(arg) {
                        EventV::DbgScoped(arg, scoped[arg])
                    } else if globals.contains_key(arg) {
                        EventV::DbgGlobal(arg, globals[arg])
                    } else {
                        EventV::DbgMissing(arg)
                    };
                    let rest = run_body_spec(instrs, labels, scoped, globals, pc + 1, depth);
                    BodyOut {
                        scoped: rest.scoped,
                        globals: rest.globals,
                        events: seq![e] + rest.events,
                        err: rest.err,
                    }
                },
                VerbKind::Other => BodyOut {
                    scoped,
                    globals,
                    events: Seq::empty(),
                    err: Option::Some(RunErrV::NoFunc(verb)),
                },
            },
        }
    }
}

/// Debugging a variable is read-only, so repeating `dbg x` with nothing in
/// between reports the same value twice: two consecutive `dbg` instructions
/// naming the same variable yield two equal events.
pub proof fn lemma_dbg_idempotent(
    instrs: Seq<InstrV>,
    labels: Map<Seq<char>, usize>,
    scoped: Map<Seq<char>, i64>,
    globals: Map<Seq<char>, i64>,
    pc: int,
    depth: nat,
    v1: Seq<char>,
    v2: Seq<char>,
    x: Seq<char>,
)
    requires
        0 <= pc,
        pc + 1 < instrs.len(),
        instrs[pc] == InstrV::Pair(v1, x),
        spec_verb(v1) == VerbKind::Dbg,
        instrs[pc + 1] == InstrV::Pair(v2, x),
        spec_verb(v2) == VerbKind::Dbg,
    ensures
        ({
            let out = run_body_spec(instrs, labels, scoped, globals, pc, depth);
            &&& out.events.len() >= 2
            &&& out.events[0] == out.events[1]
        }),
{
    let e = if scoped.contains_key(x) {
        EventV::DbgScoped(x, scoped[x])
    } else if globals.contains_key(x) {
        EventV::DbgGlobal(x, globals[x])
    } else {
        EventV::DbgMissing(x)
    };
    let rest2 = run_body_spec(instrs, labels, scoped, globals, pc + 2, depth);
    let rest = run_body_spec(instrs, labels, scoped, globals, pc + 1, depth);
    assert(rest.events == seq![e] + rest2.events);
    let out = run_body_spec(instrs, labels, scoped, globals, pc, depth);
    assert(out.events == seq![e] + (seq![e] + rest2.events));
    assert(out.events[0] == e);
    assert(out.events[1] == (seq![e] + rest2.events)[0]);
}

/// `inc` (or `dec`) of a variable that exists in neither table only emits a
/// warning: it creates no variable, and execution continues at the next
/// instruction with both tables exactly as they were.
pub proof fn lemma_inc_missing_harmless(
    instrs: Seq<InstrV>,
    labels: Map<Seq<char>, usize>,
    scoped: Map<Seq<char>, i64>,
    globals: Map<Seq<char>, i64>,
    pc: int,
    depth: nat,
    v: Seq<char>,
    z: Seq<char>,
)
    requires
        0 <= pc < instrs.len(),
        instrs[pc] == InstrV::Pair(v, z),
        spec_verb(v) == VerbKind::Inc || spec_verb(v) == VerbKind::Dec,
        !scoped.contains_key(z),
        !globals.contains_key(z),
    ensures
        ({
            let out = run_body_spec(instrs, labels, scoped, globals, pc, depth);
            let rest = run_body_spec(instrs, labels, scoped, globals, pc + 1, depth);
            out == BodyOut {
                scoped: rest.scoped,
                globals: rest.globals,
                events: seq![EventV::UnknownVariable(z)] + rest.events,
                err: rest.err,
            }
        }),
{
}

/// The full undefined-variable story: after `inc z` on an undefined `z`, a
/// later `dbg z` still reports that `z` does not exist — the warning event
/// is followed by the missing-variable event.
pub proof fn lemma_inc_then_dbg_missing(
    instrs: Seq<InstrV>,
    labels: Map<Seq<char>, usize>,
    scoped: Map<Seq<char>, i64>,
    globals: Map<Seq<char>, i64>,
    pc: int,
    depth: nat,
    v1: Seq<char>,
    v2: Seq<char>,
    z: Seq<char>,
)
    requires
        0 <= pc,
        pc + 1 < instrs.len(),
        instrs[pc] == InstrV::Pair(v1, z),
        spec_verb(v1) == VerbKind::Inc,
        instrs[pc + 1] == InstrV::Pair(v2, z),
        spec_verb(v2) == VerbKind::Dbg,
        !scoped.contains_key(z),
        !globals.contains_key(z),
    ensures
        ({
            let out = run_body_spec(instrs, labels, scoped, globals, pc, depth);
            &&& out.events.len() >= 2
            &&& out.events[0] == EventV::UnknownVariable(z)
            &&& out.events[1] == EventV::DbgMissing(z)
        }),
{
    lemma_inc_missing_harmless(instrs, labels, scoped, globals, pc, depth, v1, z);
    let rest2 = run_body_spec(instrs, labels, scoped, globals, pc + 2, depth);
    let rest = run_body_spec(instrs, labels, scoped, globals, pc + 1, depth);
    assert(rest.events == seq![EventV::DbgMissing(z)] + rest2.events);
    let out = run_body_spec(instrs, labels, scoped, globals, pc, depth);
    assert(out.events[0] == EventV::UnknownVariable(z));
    assert(out.events[1] == rest.events[0]);
}

/// The index of the first label instruction at or after `i`, or 0 when
/// there is none.
pub open spec fn first_label_at(instrs: Seq<InstrV>, i: int) -> int
    decreases instrs.len() - i,
    when 0 <= i <= instrs.len()
{
    if i >= instrs.len() {
        0
    } else if instrs[i] matches InstrV::Label(_) {
        i
    } else {
        first_label_at(instrs, i + 1)
    }
}

/// The index of the earliest label instruction, or 0 when there is none.
pub open spec fn first_label(instrs: Seq<InstrV>) -> int {
    first_label_at(instrs, 0)
}

/// The earliest-label index stays inside the sequence.
pub proof fn lemma_first_label_bounds(instrs: Seq<InstrV>)
    ensures
        0 <= first_label(instrs) <= instrs.len(),
{
    lemma_first_label_at_bounds(instrs, 0);
}

proof fn lemma_first_label_at_bounds(instrs: Seq<InstrV>, i: int)
    requires
        0 <= i <= instrs.len(),
    ensures
        0 <= first_label_at(instrs, i) <= instrs.len(),
    decreases instrs.len() - i,
{
    if i < instrs.len() && !(instrs[i] matches InstrV::Label(_)) {
        lemma_first_label_at_bounds(instrs, i + 1);
    }
}

/// Loading the globals from the leading region `[0, end)`: every variable
/// declaration seeds the table over `base`, any other instruction there is
/// skipped with a diagnostic event.
pub open spec fn preamble(instrs: Seq<InstrV>, end: int, base: Map<Seq<char>, i64>) -> (
    Map<Seq<char>, i64>,
    Seq<EventV>,
)
    decreases end,
    when end <= instrs.len()
{
    if end <= 0 {
        (base, Seq::empty())
    } else {
        let (m, ev) = preamble(instrs, end - 1, base);
        match instrs[end - 1] {
            InstrV::Var(v) => (m.insert(v.name, v.value), ev),
            i => (m, ev.push(EventV::IgnoredPreamble(i))),
        }
    }
}

/// What a whole run does: load the globals from the preamble, then execute
/// the body after the `@main` label (an empty entry body runs nothing).
pub open spec fn run_spec(
    instrs: Seq<InstrV>,
    labels: Map<Seq<char>, usize>,
    scoped: Map<Seq<char>, i64>,
    globals: Map<Seq<char>, i64>,
) -> BodyOut
    recommends
        labels.contains_key(main_chars()),
{
    let (g1, ev1) = preamble(instrs, first_label(instrs), globals);
    let m = labels[main_chars()] as int;
    if m + 1 >= instrs.len() {
        BodyOut { scoped, globals: g1, events: ev1, err: Option::None }
    } else {
        let out = run_body_spec(instrs, labels, scoped, g1, m + 1, MAX_GOTO_DEPTH as nat);
        BodyOut {
            scoped: out.scoped,
            globals: out.globals,
            events: ev1 + out.events,
            err: out.err,
        }
    }
}

/// Whether the instruction is a label.
fn is_label(v: &MusicalValues) -> (r: bool)
    ensures
        r == (v@ matches InstrV::Label(_)),
{
    match v {
        MusicalValues::Label(_) => true,
        _ => false,
    }
}

impl Compiler {
    /// Seeds the global table from the variable declarations before the
    /// earliest label, recording a diagnostic event for anything else found
    /// there.
    fn load_global_variables(&mut self)
        requires
            old(self).wf(),
        ensures
            final(self).wf(),
            final(self).ast_v() == old(self).ast_v(),
            final(self).labels_v() == old(self).labels_v(),
            final(self).scoped_v() == old(self).scoped_v(),
            final(self).cursor == old(self).cursor,
            ({
                let (g, ev) = preamble(
                    old(self).ast_v(),
                    first_label(old(self).ast_v()),
                    old(self).globals_v(),
                );
                &&& final(self).globals_v() == g
                &&& final(self).events_v() == old(self).events_v() + ev
            }),
    {
        let ghost instrs = self.ast_v();
        let mut first: usize = 0;
        while first < self.ast.len() && !is_label(&self.ast[first])
            invariant
                first <= instrs.len(),
                instrs == self.ast_v(),
                first_label(instrs) == first_label_at(instrs, first as int),
            decreases self.ast@.len() - first,
        {
            first = first + 1;
        }
        let end = if first < self.ast.len() {
            first
        } else {
            0
        };
        proof {
            assert(end as int == first_label(instrs));
        }
        let ghost base = self.globals_v();
        let ghost events0 = self.events@;
        let mut i: usize = 0;
        while i < end
            invariant
                i <= end,
                end as int == first_label(instrs),
                end <= self.ast@.len(),
                instrs == self.ast_v(),
                self.function_pointer@ == old(self).function_pointer@,
                self.variables.scoped@ == old(self).variables.scoped@,
                self.cursor == old(self).cursor,
                self.globals_v() == preamble(instrs, i as int, base).0,
                self.events@.len() >= events0.len(),
                self.events@.subrange(0, events0.len() as int) == events0,
                event_views(self.events@.subrange(events0.len() as int, self.events@.len() as int))
                    == preamble(instrs, i as int, base).1,
            decreases end - i,
        {
            let ghost ev_pre = preamble(instrs, i as int, base).1;
            match &self.ast[i] {
                MusicalValues::Var(v) => {
                    self.variables.global.insert(v.name.clone(), v.value);
                },
                other => {
                    let copy = other.duplicate();
                    self.events.push(RunEvent::IgnoredPreamble(copy));
                },
            }
            i = i + 1;
            proof {
                assert(self.events@.subrange(0, events0.len() as int) =~= events0);
                assert(event_views(
                    self.events@.subrange(events0.len() as int, self.events@.len() as int),
                ) =~= preamble(instrs, i as int, base).1);
            }
        }
        proof {
            assert(event_views(self.events@) =~= event_views(events0) + event_views(
                self.events@.subrange(events0.len() as int, self.events@.len() as int),
            ));
        }
    }

    /// Executes instructions from the cursor until the current body halts
    /// (a label or the end of the program), mirroring the body semantics:
    /// the result, the final variable tables and the appended events are
    /// exactly those of [`run_body_spec`] with `depth` jumps allowed.
    fn run_body(&mut self, depth: u64) -> (r: Result<(), CompilerError>)
        requires
            old(self).wf(),
        ensures
            final(self).wf(),
            final(self).ast_v() == old(self).ast_v(),
            final(self).labels_v() == old(self).labels_v(),
            ({
                let out = run_body_spec(
                    old(self).ast_v(),
                    old(self).labels_v(),
                    old(self).scoped_v(),
                    old(self).globals_v(),
                    old(self).cursor as int,
                    depth as nat,
                );
                &&& final(self).scoped_v() == out.scoped
                &&& final(self).globals_v() == out.globals
                &&& final(self).events_v() == old(self).events_v() + out.events
                &&& match out.err {
                    Option::None => r == Ok::<(), CompilerError>(()),
                    Option::Some(RunErrV::NoFunc(n)) => (r matches Err(ce) && ce matches
                        CompilerError::NoFunc(s) && s@ == n),
                    Option::Some(RunErrV::MissingGlobal(n)) => (r matches Err(ce) && ce matches
                        CompilerError::GlobalPropertyMissing(s) && s@ == n),
                    Option::Some(RunErrV::TooDeep) => r == Err::<(), CompilerError>(
                        CompilerError::RecursionLimitExceeded,
                    ),
                }
            }),
        decreases depth, self.ast.len() - self.cursor,
    {
        let ghost instrs = self.ast_v();
        let ghost labels = self.labels_v();
        let ghost out = run_body_spec(
            instrs,
            labels,
            self.scoped_v(),
            self.globals_v(),
            self.cursor as int,
            depth as nat,
        );
        let ghost events0 = self.events@;
        if self.cursor >= self.ast.len() {
            proof {
                assert(event_views(events0) + out.events =~= event_views(events0));
            }
            return Ok(());
        }
        let instr = self.ast[self.cursor].duplicate();
        proof {
            assert(instr@ == instrs[self.cursor as int]);
        }
        match instr {
            MusicalValues::Label(_) => {
                proof {
                    assert(event_views(events0) + out.events =~= event_views(events0));
                }
                Ok(())
            },
            MusicalValues::Var(v) => {
                self.variables.scoped.insert(v.name, v.value);
                self.cursor = self.cursor + 1;
                self.run_body(depth)
            },
            MusicalValues::Chord(c) => {
                proof {
                    reveal_strlit("pitch");
                    reveal_strlit("octave");
                    assert("pitch"@ =~= pitch_chars());
                    assert("octave"@ =~= octave_chars());
                }
                let pitch = match self.variables.get_global("pitch") {
                    Ok(v) => v,
                    Err(e) => {
                        proof {
                            assert(event_views(events0) + out.events =~= event_views(events0));
                        }
                        return Err(e);
                    },
                };
                let octave = match self.variables.get_global("octave") {
                    Ok(v) => v,
                    Err(e) => {
                        proof {
                            assert(event_views(events0) + out.events =~= event_views(events0));
                        }
                        return Err(e);
                    },
                };
                self.events.push(RunEvent::Play(c, pitch, octave));
                proof {
                    assert(event_views(self.events@) =~= event_views(events0).push(
                        self.events@.last()@,
                    ));
                }
                self.cursor = self.cursor + 1;
                let r = self.run_body(depth);
                proof {
                    let rest = run_body_spec(
                        instrs,
                        labels,
                        old(self).scoped_v(),
                        old(self).globals_v(),
                        old(self).cursor + 1,
                        depth as nat,
                    );
                    assert((event_views(events0).push(out.events[0]) + rest.events) =~= event_views(
                        events0,
                    ) + out.events);
                }
                r
            },
            MusicalValues::Pair(p) => {
                let (verb, arg) = p;
                match verb_kind(verb.as_str()) {
                    VerbKind::Goto => {
                        let target = self.function_pointer.get(arg.as_str());
                        match target {
                            Option::Some(ptr) => {
                                if depth == 0 {
                                    proof {
                                        assert(event_views(events0) + out.events =~= event_views(
                                            events0,
                                        ));
                                    }
                                    return Err(CompilerError::RecursionLimitExceeded);
                                }
                                proof {
                                    lemma_spec_labels_valid(instrs);
                                }
                                let saved = self.variables.scoped.duplicate();
                                let prev = self.cursor;
                                self.variables.scoped = Dict::new();
                                self.cursor = ptr + 1;
                                let ghost nested = run_body_spec(
                                    instrs,
                                    labels,
                                    Map::empty(),
                                    old(self).globals_v(),
                                    ptr + 1,
                                    (depth - 1) as nat,
                                );
                                match self.run_body(depth - 1) {
                                    Ok(()) => {},
                                    Err(e) => {
                                        return Err(e);
                                    },
                                }
                                self.cursor = prev + 1;
                                self.variables.scoped = saved;
                                let r = self.run_body(depth);
                                proof {
                                    let rest = run_body_spec(
                                        instrs,
                                        labels,
                                        old(self).scoped_v(),
                                        nested.globals,
                                        old(self).cursor + 1,
                                        depth as nat,
                                    );
                                    assert((event_views(events0) + nested.events) + rest.events
                                        =~= event_views(events0) + (nested.events + rest.events));
                                }
                                r
                            },
                            Option::None => {
                                self.events.push(RunEvent::UnknownLabel(arg));
                                proof {
                                    assert(event_views(self.events@) =~= event_views(
                                        events0,
                                    ).push(self.events@.last()@));
                                }
                                self.cursor = self.cursor + 1;
                                let r = self.run_body(depth);
                                proof {
                                    let rest = run_body_spec(
                                        instrs,
                                        labels,
                                        old(self).scoped_v(),
                                        old(self).globals_v(),
                                        old(self).cursor + 1,
                                        depth as nat,
                                    );
                                    assert((event_views(events0).push(out.events[0])
                                        + rest.events) =~= event_views(events0) + out.events);
                                }
                                r
                            },
                        }
                    },
                    VerbKind::Inc => {
                        match self.variables.scoped.get(arg.as_str()) {
                            Option::Some(v) => {
                                let nv = if v == i64::MAX {
                                    v
                                } else {
                                    v + 1
                                };
                                self.variables.scoped.insert(arg, nv);
                            },
                            Option::None => {
                                match self.variables.global.get(arg.as_str()) {
                                    Option::Some(v) => {
                                        let nv = if v == i64::MAX {
                                            v
                                        } else {
                                            v + 1
                                        };
                                        self.variables.global.insert(arg, nv);
                                    },
                                    Option::None => {
                                        self.events.push(RunEvent::UnknownVariable(arg));
                                        proof {
                                            assert(event_views(self.events@) =~= event_views(
                                                events0,
                                            ).push(self.events@.last()@));
                                        }
                                    },
                                }
                            },
                        }
                        self.cursor = self.cursor + 1;
                        let r = self.run_body(depth);
                        proof {
                            if !old(self).scoped_v().contains_key(arg@) && !old(
                                self,
                            ).globals_v().contains_key(arg@) {
                                let rest = run_body_spec(
                                    instrs,
                                    labels,
                                    old(self).scoped_v(),
                                    old(self).globals_v(),
                                    old(self).cursor + 1,
                                    depth as nat,
                                );
                                assert((event_views(events0).push(out.events[0]) + rest.events)
                                    =~= event_views(events0) + out.events);
                            }
                        }
                        r
                    },
                    VerbKind::Dec => {
                        match self.variables.scoped.get(arg.as_str()) {
                            Option::Some(v) => {
                                let nv = if v == i64::MIN {
                                    v
                                } else {
                                    v - 1
                                };
                                self.variables.scoped.insert(arg, nv);
                            },
                            Option::None => {
                                match self.variables.global.get(arg.as_str()) {
                                    Option::Some(v) => {
                                        let nv = if v == i64::MIN {
                                            v
                                        } else {
                                            v - 1
                                        };
                                        self.variables.global.insert(arg, nv);
                                    },
                                    Option::None => {
                                        self.events.push(RunEvent::UnknownVariable(arg));
                                        proof {
                                            assert(event_views(self.events@) =~= event_views(
                                                events0,
                                            ).push(self.events@.last()@));
                                        }
                                    },
                                }
                            },
                        }
                        self.cursor = self.cursor + 1;
                        let r = self.run_body(depth);
                        proof {
                            if !old(self).scoped_v().contains_key(arg@) && !old(
                                self,
                            ).globals_v().contains_key(arg@) {
                                let rest = run_body_spec(
                                    instrs,
                                    labels,
                                    old(self).scoped_v(),
                                    old(self).globals_v(),
                                    old(self).cursor + 1,
                                    depth as nat,
                                );
                                assert((event_views(events0).push(out.events[0]) + rest.events)
                                    =~= event_views(events0) + out.events);
                            }
                        }
                        r
                    },
                    VerbKind::Dbg => {
                        match self.variables.scoped.get(arg.as_str()) {
                            Option::Some(v) => {
                                self.events.push(RunEvent::DbgScoped(arg, v));
                            },
                            Option::None => {
                                match self.variables.global.get(arg.as_str()) {
                                    Option::Some(v) => {
                                        self.events.push(RunEvent::DbgGlobal(arg, v));
                                    },
                                    Option::None => {
                                        self.events.push(RunEvent::DbgMissing(arg));
                                    },
                                }
                            },
                        }
                        proof {
                            assert(event_views(self.events@) =~= event_views(events0).push(
                                self.events@.last()@,
                            ));
                        }
                        self.cursor = self.cursor + 1;
                        let r = self.run_body(depth);
                        proof {
                            let rest = run_body_spec(
                                instrs,
                                labels,
                                old(self).scoped_v(),
                                old(self).globals_v(),
                                old(self).cursor + 1,
                                depth as nat,
                            );
                            assert((event_views(events0).push(out.events[0]) + rest.events)
                                =~= event_views(events0) + out.events);
                        }
                        r
                    },
                    VerbKind::Other => {
                        proof {
                            assert(event_views(events0) + out.events =~= event_views(events0));
                        }
                        Err(CompilerError::NoFunc(verb))
                    },
                }
            },
        }
    }

    /// Runs the program: loads the globals from the preamble, then executes
    /// the body after `@main` with the documented `goto` depth limit. The
    /// observable actions of the run are appended to `events`, in execution
    /// order; a runtime error ends the run after the events recorded so far.
    pub fn run(&mut self) -> (r: Result<(), CompilerError>)
        requires
            old(self).wf(),
        ensures
            final(self).wf(),
            final(self).ast_v() == old(self).ast_v(),
            final(self).labels_v() == old(self).labels_v(),
            ({
                let out = run_spec(
                    old(self).ast_v(),
                    old(self).labels_v(),
                    old(self).scoped_v(),
                    old(self).globals_v(),
                );
                &&& final(self).scoped_v() == out.scoped
                &&& final(self).globals_v() == out.globals
                &&& final(self).events_v() == old(self).events_v() + out.events
                &&& match out.err {
                    Option::None => r == Ok::<(), CompilerError>(()),
                    Option::Some(RunErrV::NoFunc(n)) => (r matches Err(ce) && ce matches
                        CompilerError::NoFunc(s) && s@ == n),
                    Option::Some(RunErrV::MissingGlobal(n)) => (r matches Err(ce) && ce matches
                        CompilerError::GlobalPropertyMissing(s) && s@ == n),
                    Option::Some(RunErrV::TooDeep) => r == Err::<(), CompilerError>(
                        CompilerError::RecursionLimitExceeded,
                    ),
                }
            }),
    {
        self.load_global_variables();
        proof {
            reveal_strlit("main");
            assert("main"@ =~= main_chars());
        }
        let mptr = match self.function_pointer.get("main") {
            Option::Some(p) => p,
            Option::None => {
                return Err(CompilerError::NoMain);
            },
        };
        self.cursor = mptr;
        let n = self.ast.len();
        proof {
            lemma_spec_labels_valid(old(self).ast_v());
            lemma_first_label_bounds(old(self).ast_v());
        }
        if n > mptr + 1 {
            self.cursor = mptr + 1;
            let ghost mid_events = self.events@;
            let r = self.run_body(MAX_GOTO_DEPTH);
            proof {
                let (g1, ev1) = preamble(
                    old(self).ast_v(),
                    first_label(old(self).ast_v()),
                    old(self).globals_v(),
                );
                let bo = run_body_spec(
                    old(self).ast_v(),
                    old(self).labels_v(),
                    old(self).scoped_v(),
                    g1,
                    mptr + 1,
                    MAX_GOTO_DEPTH as nat,
                );
                assert((event_views(old(self).events@) + ev1) + bo.events =~= event_views(
                    old(self).events@,
                ) + (ev1 + bo.events));
            }
            r
        } else {
            Ok(())
        }
    }
}

} // verus!
