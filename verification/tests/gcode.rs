use camnest::gcode::{format_float, Block, BlockBuilder, MotionMode, Program, Word, Writer};
use camnest::geometry::Point3;

fn mm(value: f64) -> i64 {
    (value * 1_000_000.0).round() as i64
}

#[test]
fn block_to_string_formats_words() {
    let block = Block {
        words: vec![
            Word::new('G', "1").unwrap(),
            Word::float('X', mm(10.12), 3).unwrap(),
            Word::float('F', mm(400.0), 1).unwrap(),
        ],
        comment: Some("pass".into()),
    };
    assert_eq!(block.to_string(), "G1 X10.12 F400 (pass)");
}

#[test]
fn format_float_trims_trailing_zeroes() {
    assert_eq!(format_float(mm(12.3400), 4), "12.34");
    assert_eq!(format_float(mm(-0.0004), 4), "-0.0004");
    assert_eq!(format_float(mm(0.0), 4), "0");
}

#[test]
fn writer_omits_redundant_motion() {
    let mut writer = Writer::new();
    writer.start_program().unwrap();
    writer
        .motion(MotionMode::Rapid, Point3::new(mm(0.0), mm(0.0), mm(5.0)), None)
        .unwrap();
    writer
        .motion(MotionMode::Rapid, Point3::new(mm(10.0), mm(0.0), mm(5.0)), None)
        .unwrap();
    let program = writer.finish();
    let serialized = program.to_string();
    let lines: Vec<&str> = serialized.lines().collect();
    assert_eq!(lines.len(), 3);
    assert_eq!(lines[1], "G0 X0 Y0 Z5");
    assert_eq!(lines[2], "X10");
}

fn parse_block(block: &str) -> Vec<(char, String)> {
    block
        .split_whitespace()
        .filter(|token| !token.starts_with('('))
        .map(|token| {
            let mut chars = token.chars();
            let letter = chars.next().unwrap();
            let rest: String = chars.collect();
            (letter, rest)
        })
        .collect()
}

#[test]
fn writer_emits_well_formed_blocks() {
    let mut writer = Writer::new().with_precision(4);
    writer.start_program().unwrap();
    writer
        .motion(MotionMode::Rapid, Point3::new(mm(0.0), mm(0.0), mm(5.0)), None)
        .unwrap();
    writer
        .motion(
            MotionMode::Linear,
            Point3::new(mm(12.5), mm(8.25), mm(-1.25)),
            Some(mm(450.0)),
        )
        .unwrap();
    writer.dwell(mm(0.5)).unwrap();
    writer.end_program().unwrap();
    let program = writer.finish();
    let text = program.to_string();
    let lines: Vec<String> = text.lines().map(|s| s.to_owned()).collect();
    assert_eq!(lines[0], "G21 G90 G94");
    let motion_words = parse_block(&lines[2]);
    assert!(motion_words.contains(&('X', "12.5".into())));
    assert!(motion_words.iter().any(|(c, v)| *c == 'F' && v == "450"));

    for line in &lines {
        for (letter, value) in parse_block(line) {
            assert!(letter.is_ascii_alphabetic());
            if matches!(letter, 'X' | 'Y' | 'Z' | 'F' | 'P') {
                value.parse::<f64>().expect("numeric word");
            }
        }
    }
}

#[test]
fn writer_program_is_exact() {
    let mut writer = Writer::new().with_precision(4);
    writer.start_program().unwrap();
    writer.comment("part");
    writer.set_spindle(mm(12000.4)).unwrap();
    writer.set_spindle(mm(12000.4)).unwrap();
    writer.motion(MotionMode::Rapid, Point3::new(0, 0, mm(5.0)), None).unwrap();
    writer
        .motion(MotionMode::Linear, Point3::new(mm(12.5), mm(8.25), mm(-1.25)), Some(mm(450.0)))
        .unwrap();
    writer
        .motion(MotionMode::Linear, Point3::new(mm(12.5), mm(9.0), mm(-1.25)), Some(mm(450.0)))
        .unwrap();
    writer
        .motion(MotionMode::Linear, Point3::new(mm(12.5), mm(9.0), mm(-1.25)), Some(mm(450.0)))
        .unwrap();
    writer
        .motion(MotionMode::Linear, Point3::new(mm(12.5), mm(9.0), mm(-1.25)), Some(mm(300.25)))
        .unwrap();
    writer.dwell(mm(0.5)).unwrap();
    writer.stop_spindle().unwrap();
    writer.set_spindle(mm(8000.0)).unwrap();
    writer.end_program().unwrap();
    let text = writer.finish().to_string();
    assert_eq!(
        text,
        "G21 G90 G94\n(part)\nM3 S12000\nG0 X0 Y0 Z5\nG1 X12.5 Y8.25 Z-1.25 F450\nY9\nF300.25\nG4 P0.5\nM5\nM3 S8000\nM2"
    );
}

#[test]
fn writer_rejects_bad_values() {
    let mut writer = Writer::new();
    assert_eq!(
        writer.set_spindle(0).unwrap_err().to_string(),
        "invalid argument: spindle RPM must be positive"
    );
    assert_eq!(
        writer.dwell(0).unwrap_err().to_string(),
        "invalid argument: dwell duration must be positive"
    );
    assert_eq!(
        writer
            .motion(MotionMode::Linear, Point3::new(0, 0, 0), Some(0))
            .unwrap_err()
            .to_string(),
        "invalid argument: feed rate must be positive"
    );
    // the rejected motion has left the writer as it was
    writer.motion(MotionMode::Linear, Point3::new(0, 0, 0), Some(mm(100.0))).unwrap();
    assert_eq!(writer.finish().to_string(), "G1 X0 Y0 Z0 F100");
}

#[test]
fn precision_is_at_least_one() {
    let mut writer = Writer::new().with_precision(0);
    writer.motion(MotionMode::Rapid, Point3::new(mm(1.26), mm(-0.04), mm(2.0)), None).unwrap();
    assert_eq!(writer.finish().to_string(), "G0 X1.3 Y0 Z2");
}

#[test]
fn numbers_round_half_to_even() {
    assert_eq!(format_float(mm(0.5), 0), "0");
    assert_eq!(format_float(mm(1.5), 0), "2");
    assert_eq!(format_float(mm(2.5), 0), "2");
    assert_eq!(format_float(mm(-2.5), 0), "-2");
    assert_eq!(format_float(mm(0.125), 2), "0.12");
    assert_eq!(format_float(mm(0.135), 2), "0.14");
    assert_eq!(format_float(mm(-0.0004), 3), "0");
    assert_eq!(format_float(mm(-0.0005), 3), "0");
    assert_eq!(format_float(mm(-0.0015), 3), "-0.002");
    assert_eq!(format_float(1, 6), "0.000001");
    assert_eq!(format_float(1, 9), "0.000001");
    assert_eq!(format_float(-1_000_001, 6), "-1.000001");
    assert_eq!(format_float(mm(100.0), 3), "100");
    assert_eq!(format_float(mm(1200.5), 3), "1200.5");
    assert_eq!(format_float(i64::MAX, 2), "9223372036854.78");
    assert_eq!(format_float(i64::MIN, 6), "-9223372036854.775808");
}

#[test]
fn word_letters_are_upper_cased_and_checked() {
    let w = Word::new('x', "1.5").unwrap();
    assert_eq!(w.letter, 'X');
    assert_eq!(w.value, "1.5");
    assert_eq!(w.to_string(), "X1.5");
    assert_eq!(
        Word::new('1', "5").unwrap_err().to_string(),
        "invalid argument: invalid word letter '1'"
    );
    assert_eq!(
        Word::float('?', 5, 1).unwrap_err().to_string(),
        "invalid argument: invalid word letter '?'"
    );
}

#[test]
fn block_builder_enforces_the_block_rules() {
    let mut b = BlockBuilder::new();
    assert!(b.is_empty());
    b.add_word(Word::new('G', "21").unwrap()).unwrap();
    b.add_word(Word::new('G', "0").unwrap()).unwrap();
    b.add_word(Word::new('G', "0").unwrap()).unwrap();
    assert_eq!(
        b.add_word(Word::new('G', "1").unwrap()).unwrap_err().to_string(),
        "invalid argument: multiple motion words in one block"
    );
    b.add_word(Word::new('X', "1").unwrap()).unwrap();
    assert_eq!(
        b.add_word(Word::new('x', "2").unwrap()).unwrap_err().to_string(),
        "invalid argument: letter X emitted twice in single block"
    );
    assert!(!b.is_empty());
    assert_eq!(b.build().to_string(), "G21 G0 G0 X1");
}

#[test]
fn motion_modes_have_their_codes() {
    assert_eq!(MotionMode::Rapid.gcode(), "G0");
    assert_eq!(MotionMode::Linear.gcode(), "G1");
    assert_eq!(MotionMode::Rapid.code(), "0");
    assert_eq!(MotionMode::Linear.code(), "1");
    assert!(camnest::gcode::is_motion_code("0"));
    assert!(!camnest::gcode::is_motion_code("21"));
    assert!(camnest::gcode::is_motion_compatible("0", "0"));
    assert!(!camnest::gcode::is_motion_compatible("0", "1"));
    assert!(camnest::gcode::is_motion_compatible("0", "21"));
}

#[test]
fn program_push_appends_blocks() {
    let mut program = Program::default();
    assert_eq!(program.to_string(), "");
    program.push(Block { words: vec![], comment: Some("only".into()) });
    program.push(Block { words: vec![Word::new('M', "2").unwrap()], comment: None });
    assert_eq!(program.blocks.len(), 2);
    assert_eq!(program.to_string(), "(only)\nM2");
}

#[test]
fn second_rapid_to_the_same_point_writes_nothing() {
    let mut writer = Writer::new();
    let at = Point3::new(mm(1.0), mm(2.0), mm(3.0));
    writer.motion(MotionMode::Rapid, at, None).unwrap();
    writer.motion(MotionMode::Rapid, at, None).unwrap();
    writer.motion(MotionMode::Linear, at, Some(mm(10.0))).unwrap();
    writer.motion(MotionMode::Linear, Point3::new(mm(1.0) + 1, mm(2.0), mm(3.0)), None).unwrap();
    assert_eq!(writer.finish().to_string(), "G0 X1 Y2 Z3\nG1 F10\nX1");
}
