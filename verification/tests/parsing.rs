use musical::data::{Chord, MusicalValues, Note, NoteModifier, NoteName};
use musical::error::ParseResponse;
use musical::parser::Parser;

#[test]
fn ident_reads_letters_dots_underscores() {
    let mut p = Parser::new("  hello_world.x  rest");
    assert_eq!(p.ident(), Ok("hello_world.x".to_string()));
    assert_eq!(p.ident(), Ok("rest".to_string()));
    assert_eq!(p.ident(), Err(ParseResponse::NotPossible));
}

#[test]
fn unsigned_int_reads_digits() {
    let mut p = Parser::new(" 42x");
    assert_eq!(p.unsigned_int(), Ok(42));
    assert_eq!(p.unsigned_int(), Err(ParseResponse::NotPossible));
}

#[test]
fn unsigned_int_overflow_is_integer_error() {
    let mut p = Parser::new("99999999999999999999999999");
    assert_eq!(p.unsigned_int(), Err(ParseResponse::Int(0)));
}

#[test]
fn symbol_consumes_only_on_match() {
    let mut p = Parser::new(" :x");
    assert!(p.symbol(':'));
    assert!(!p.symbol(':'));
    assert!(p.symbol('x'));
    assert!(!p.symbol('x'));
}

#[test]
fn force_end_accepts_exhausted_input_and_rejects_content() {
    let mut p = Parser::new("  ;\n");
    assert_eq!(p.force_end(), Ok(()));
    let mut q = Parser::new("\n x");
    assert_eq!(q.force_end(), Err(ParseResponse::EOL(1)));
}

#[test]
fn label_reads_at_sign_and_name() {
    let mut p = Parser::new("@main rest");
    assert_eq!(p.label(), Ok("main".to_string()));
    let mut q = Parser::new("plain");
    assert_eq!(q.label(), Err(ParseResponse::NotPossible));
}

#[test]
fn label_without_name_is_hard_error() {
    let mut p = Parser::new("@ !");
    assert_eq!(p.label(), Err(ParseResponse::Ident(0)));
}

#[test]
fn chord_reads_notes_and_duration() {
    let mut p = Parser::new("A#Bb3/4");
    let c = p.chord().unwrap();
    assert_eq!(
        c.notes,
        vec![
            Note { note: NoteName::A, modifier: NoteModifier::Sharp },
            Note { note: NoteName::B, modifier: NoteModifier::Flat },
        ]
    );
    assert_eq!(c.num, 3);
    assert_eq!(c.den, 4);
}

#[test]
fn chord_denominator_defaults_to_one() {
    let mut p = Parser::new("C2");
    let c = p.chord().unwrap();
    assert_eq!(c.num, 2);
    assert_eq!(c.den, 1);
}

#[test]
fn chord_h_is_alias_for_b() {
    let mut p = Parser::new("H4");
    let c = p.chord().unwrap();
    assert_eq!(c.notes, vec![Note { note: NoteName::B, modifier: NoteModifier::Natural }]);
}

#[test]
fn chord_without_duration_is_hard_error() {
    let mut p = Parser::new("A ;");
    assert_eq!(p.chord(), Err(ParseResponse::Int(0)));
}

#[test]
fn chord_with_zero_notes_backs_off_even_before_a_number() {
    let mut p = Parser::new("3/4");
    assert_eq!(p.chord(), Err(ParseResponse::NotPossible));
}

#[test]
fn pair_is_all_or_nothing() {
    let mut p = Parser::new("goto loop");
    assert_eq!(p.pair(), Ok(("goto".to_string(), "loop".to_string())));
    let mut q = Parser::new("alone: 3");
    assert_eq!(q.pair(), Err(ParseResponse::NotPossible));
    assert_eq!(q.ident(), Ok("alone".to_string()));
}

#[test]
fn variable_reads_name_colon_number() {
    let mut p = Parser::new("x: 5");
    let v = p.variable().unwrap();
    assert_eq!(v.name, "x");
    assert_eq!(v.value, 5);
}

#[test]
fn variable_without_colon_backs_off() {
    let mut p = Parser::new("x 5");
    assert_eq!(p.variable(), Err(ParseResponse::NotPossible));
}

#[test]
fn variable_with_missing_number_is_hard_error() {
    let mut p = Parser::new("x: y");
    assert_eq!(p.variable(), Err(ParseResponse::Int(0)));
}

#[test]
fn next_dispatches_in_order() {
    let mut p = Parser::new("@top\nAb2\ngoto top\ncount: 7\n");
    assert_eq!(p.next(), Ok(MusicalValues::Label("top".to_string())));
    assert_eq!(
        p.next(),
        Ok(MusicalValues::Chord(Chord {
            notes: vec![Note { note: NoteName::A, modifier: NoteModifier::Flat }],
            num: 2,
            den: 1,
        }))
    );
    assert_eq!(p.next(), Ok(MusicalValues::Pair(("goto".to_string(), "top".to_string()))));
    match p.next() {
        Ok(MusicalValues::Var(v)) => {
            assert_eq!(v.name, "count");
            assert_eq!(v.value, 7);
        }
        other => panic!("expected a variable declaration, got {other:?}"),
    }
    assert_eq!(p.next(), Err(ParseResponse::Done));
}

#[test]
fn next_reports_unexpected_characters_with_line() {
    let mut p = Parser::new("ok ok\n!!!");
    assert_eq!(p.next(), Ok(MusicalValues::Pair(("ok".to_string(), "ok".to_string()))));
    assert_eq!(p.next(), Err(ParseResponse::Unexpected(1)));
}

#[test]
fn unterminated_block_comment_parses_to_done() {
    let mut p = Parser::new("<comment never closed");
    assert_eq!(p.next(), Err(ParseResponse::Done));
}

#[test]
fn line_comment_runs_to_end_of_line() {
    let mut p = Parser::new("# note names\nfoo bar");
    assert_eq!(p.next(), Ok(MusicalValues::Pair(("foo".to_string(), "bar".to_string()))));
}

#[test]
fn block_comment_may_span_lines() {
    let mut p = Parser::new("<skip\nall of\nthis> x: 1");
    match p.next() {
        Ok(MusicalValues::Var(v)) => assert_eq!(v.name, "x"),
        other => panic!("expected a variable declaration, got {other:?}"),
    }
}

#[test]
fn line_numbers_count_newlines_inside_comments() {
    let mut p = Parser::new("# c\n<d\ne>\n!");
    assert_eq!(p.next(), Err(ParseResponse::Unexpected(3)));
}

#[test]
fn get_err_line_slices_the_current_line() {
    let p = Parser::new("abc\ndef");
    assert_eq!(p.get_err_line(), "abc");
}

#[test]
fn chord_round_trips_through_text() {
    let mut p = Parser::new("A#Bb3/4");
    let c = p.chord().unwrap();
    let text = c.to_text();
    assert_eq!(text, "A#Bb3/4");
    let mut q = Parser::new(&text);
    assert_eq!(q.chord().unwrap(), c);
}

#[test]
fn chord_round_trip_normalizes_alias_and_default_denominator() {
    let mut p = Parser::new("H4/1");
    let c = p.chord().unwrap();
    let text = c.to_text();
    assert_eq!(text, "B4");
    let mut q = Parser::new(&text);
    assert_eq!(q.chord().unwrap(), c);
}

#[test]
fn is_note_distinguishes_single_notes() {
    let mut p = Parser::new("A4");
    assert!(p.chord().unwrap().is_note());
    let mut q = Parser::new("AC4");
    assert!(!q.chord().unwrap().is_note());
}
