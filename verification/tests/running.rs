use musical::cli::CompilerArgs;
use musical::compiler::{Compiler, RunEvent};
use musical::data::MusicalValues;
use musical::error::{CompilerError, ParseResponse};

#[test]
fn build_succeeds_for_program_with_main() {
    let c = Compiler::new("x: 5\n@main\ndbg x\n").unwrap();
    assert_eq!(c.ast.len(), 3);
}

#[test]
fn build_without_main_fails_with_no_main() {
    assert_eq!(
        Compiler::new("x: 1\n@loop\ndbg x\n").err(),
        Some(CompilerError::NoMain)
    );
}

#[test]
fn empty_input_fails_with_no_main() {
    assert_eq!(Compiler::new("").err(), Some(CompilerError::NoMain));
}

#[test]
fn build_reports_parse_error_with_line_text() {
    match Compiler::new("@") {
        Err(CompilerError::Failed(e, line)) => {
            assert_eq!(e, ParseResponse::Ident(0));
            assert_eq!(line, "@");
        }
        other => panic!("expected a failed parse, got {other:?}"),
    }
}

#[test]
fn preamble_then_goto_prints_global_exactly_once() {
    let mut c = Compiler::new("x: 5\n@main\ngoto loop\n@loop\ndbg x\n").unwrap();
    c.run().unwrap();
    assert_eq!(c.events, vec![RunEvent::DbgGlobal("x".to_string(), 5)]);
    assert_eq!(c.events[0].describe(), "GLOBAL x: 5");
}

#[test]
fn inc_of_undefined_variable_warns_and_creates_nothing() {
    let mut c = Compiler::new("@main\ninc z\ndbg z\n").unwrap();
    c.run().unwrap();
    assert_eq!(
        c.events,
        vec![
            RunEvent::UnknownVariable("z".to_string()),
            RunEvent::DbgMissing("z".to_string()),
        ]
    );
    assert_eq!(c.events[1].describe(), "VARIABLE z doesn't exist.");
}

#[test]
fn dbg_is_idempotent_on_an_unmodified_variable() {
    let mut c = Compiler::new("x: 2\n@main\ndbg x\ndbg x\n").unwrap();
    c.run().unwrap();
    assert_eq!(c.events.len(), 2);
    assert_eq!(c.events[0], c.events[1]);
}

#[test]
fn goto_unknown_label_warns_and_continues() {
    let mut c = Compiler::new("y: 1\n@main\ngoto nowhere\ndbg y\n").unwrap();
    c.run().unwrap();
    assert_eq!(
        c.events,
        vec![
            RunEvent::UnknownLabel("nowhere".to_string()),
            RunEvent::DbgGlobal("y".to_string(), 1),
        ]
    );
}

#[test]
fn unknown_verb_is_a_runtime_error() {
    let mut c = Compiler::new("@main\nfrobnicate now\n").unwrap();
    assert_eq!(c.run().err(), Some(CompilerError::NoFunc("frobnicate".to_string())));
}

#[test]
fn chord_without_pitch_global_is_an_error() {
    let mut c = Compiler::new("@main\nA4\n").unwrap();
    assert_eq!(
        c.run().err(),
        Some(CompilerError::GlobalPropertyMissing("pitch".to_string()))
    );
}

#[test]
fn chord_without_octave_global_is_an_error() {
    let mut c = Compiler::new("pitch: 440\n@main\nA4\n").unwrap();
    assert_eq!(
        c.run().err(),
        Some(CompilerError::GlobalPropertyMissing("octave".to_string()))
    );
}

#[test]
fn chord_is_played_with_pitch_and_octave() {
    let mut c = Compiler::new("pitch: 440\noctave: 4\n@main\nA#2\n").unwrap();
    c.run().unwrap();
    assert_eq!(c.events.len(), 1);
    match &c.events[0] {
        RunEvent::Play(chord, pitch, octave) => {
            assert_eq!(chord.to_text(), "A#2");
            assert_eq!(*pitch, 440);
            assert_eq!(*octave, 4);
        }
        other => panic!("expected a playback event, got {other:?}"),
    }
}

#[test]
fn endless_goto_cycle_hits_the_recursion_limit() {
    let mut c = Compiler::new("@main\ngoto main\n").unwrap();
    assert_eq!(c.run().err(), Some(CompilerError::RecursionLimitExceeded));
}

#[test]
fn scoped_variables_are_restored_after_goto() {
    let mut c = Compiler::new("@main\ngoto sub\ndbg y\n@sub\ny: 1\ndbg y\n").unwrap();
    c.run().unwrap();
    assert_eq!(
        c.events,
        vec![
            RunEvent::DbgScoped("y".to_string(), 1),
            RunEvent::DbgMissing("y".to_string()),
        ]
    );
}

#[test]
fn inc_and_dec_update_globals() {
    let mut c = Compiler::new("n: 5\n@main\ninc n\ninc n\ndec n\ndbg n\n").unwrap();
    c.run().unwrap();
    assert_eq!(c.events, vec![RunEvent::DbgGlobal("n".to_string(), 6)]);
}

#[test]
fn verbs_are_read_without_regard_to_case() {
    let mut c = Compiler::new("n: 1\n@main\nINC n\ndbg n\n").unwrap();
    c.run().unwrap();
    assert_eq!(c.events, vec![RunEvent::DbgGlobal("n".to_string(), 2)]);
}

#[test]
fn dec_can_move_a_variable_below_zero() {
    let mut c = Compiler::new("n: 0\n@main\ndec n\ndbg n\n").unwrap();
    c.run().unwrap();
    assert_eq!(c.events, vec![RunEvent::DbgGlobal("n".to_string(), -1)]);
    assert_eq!(c.events[0].describe(), "GLOBAL n: -1");
}

#[test]
fn non_variable_instructions_in_preamble_are_skipped_with_notice() {
    let mut c = Compiler::new("foo bar\nx: 1\n@main\ndbg x\n").unwrap();
    c.run().unwrap();
    assert_eq!(
        c.events,
        vec![
            RunEvent::IgnoredPreamble(MusicalValues::Pair(("foo".to_string(), "bar".to_string()))),
            RunEvent::DbgGlobal("x".to_string(), 1),
        ]
    );
    assert_eq!(
        c.events[0].describe(),
        "Warning: ignoring instruction pair 'foo bar'"
    );
}

#[test]
fn empty_main_body_runs_nothing() {
    let mut c = Compiler::new("x: 1\n@main").unwrap();
    c.run().unwrap();
    assert_eq!(c.events, vec![]);
}

#[test]
fn local_assignment_shadows_global_for_dbg() {
    let mut c = Compiler::new("x: 1\n@main\nx: 9\ndbg x\n").unwrap();
    c.run().unwrap();
    assert_eq!(c.events, vec![RunEvent::DbgScoped("x".to_string(), 9)]);
}

#[test]
fn oversized_variable_value_is_an_integer_error() {
    match Compiler::new("x: 99999999999999999999999\n@main\n") {
        Err(CompilerError::Failed(ParseResponse::Int(0), _)) => {}
        other => panic!("expected an integer error, got {other:?}"),
    }
}

#[test]
fn error_descriptions_match_their_texts() {
    assert_eq!(
        CompilerError::NoMain.describe(),
        "File contains no main function"
    );
    assert_eq!(
        CompilerError::NoFunc("spin".to_string()).describe(),
        "function 'spin' doesn't exist"
    );
    assert_eq!(
        CompilerError::GlobalPropertyMissing("pitch".to_string()).describe(),
        "Global property 'pitch' is missing, but is required"
    );
    assert_eq!(ParseResponse::Unexpected(3).describe(), "Line 3: Unexpected character(s)");
    assert_eq!(ParseResponse::Int(12).describe(), "Line 12: Expected an unsigned number");
    assert_eq!(ParseResponse::EOL(0).describe(), "Line 0: Expected end of line");
    assert_eq!(
        CompilerError::RecursionLimitExceeded.describe(),
        "Maximum goto call depth exceeded"
    );
    let mut c = Compiler::new("@main\ngoto gone\n").unwrap();
    c.run().unwrap();
    assert_eq!(
        c.events[0].describe(),
        "Warning: ignoring 'goto gone': label doesn't exist"
    );
}

#[test]
fn inc_and_dec_prefer_the_scoped_table() {
    let mut c = Compiler::new("@main\ngoto s\n@s\nk: 5\ninc k\ninc k\ndec k\ndbg k\n").unwrap();
    c.run().unwrap();
    assert_eq!(c.events, vec![RunEvent::DbgScoped("k".to_string(), 6)]);
}

#[test]
fn duration_may_be_separated_by_whitespace() {
    let mut p = musical::parser::Parser::new("A 3");
    let c = p.chord().unwrap();
    assert_eq!((c.num, c.den), (3, 1));
}

#[test]
fn zero_denominator_is_kept_and_round_trips() {
    let mut p = musical::parser::Parser::new("A1/0");
    let c = p.chord().unwrap();
    assert_eq!((c.num, c.den), (1, 0));
    let text = c.to_text();
    assert_eq!(text, "A1/0");
    let mut q = musical::parser::Parser::new(&text);
    assert_eq!(q.chord().unwrap(), c);
}

#[test]
fn default_arguments_run_with_no_file() {
    let args = CompilerArgs::default();
    assert!(args.run);
    assert_eq!(args.filename, "");
}
