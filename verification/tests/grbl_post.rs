use camnest::geometry::Point3;
use camnest::linking::{LeadStrategy, LinkingSettings, RampStrategy};
use camnest::ops::{ContourOperation, ContourSide, OperationSettings, PocketOperation, Tool};
use camnest::post::grbl::{
    parses_as_number, validate_program, write_program, write_program_with_config, GrblConfig,
};
use camnest::simulate::{simulate, SimulationSettings};
use camnest::tabs::Tab;
use camnest::{Point2, ToolMotion, Toolpath};

fn mm(value: f64) -> i64 {
    (value * 1_000_000.0).round() as i64
}

#[test]
fn grbl_post_renders_header_and_footer() {
    let tool = Tool::new(mm(6.0), mm(600.0), mm(200.0), mm(12000.0)).unwrap();
    let mut path = Toolpath::new("demo", mm(5.0));
    path.push(ToolMotion::Rapid { to: Point3::new(mm(0.0), mm(0.0), mm(5.0)) });
    path.push(ToolMotion::Feed { to: Point3::new(mm(10.0), mm(0.0), mm(-1.0)), feed: tool.feed_rate });
    path.push(ToolMotion::Feed { to: Point3::new(mm(10.0), mm(10.0), mm(-1.0)), feed: tool.feed_rate });
    path.push(ToolMotion::Rapid { to: Point3::new(mm(10.0), mm(10.0), mm(5.0)) });

    let program = write_program(&path, &tool).unwrap();
    let lines: Vec<_> = program.lines().collect();
    assert!(lines[0].contains("G21"));
    assert!(lines.last().unwrap().contains("M2"));
    validate_program(&program).unwrap();
    assert_eq!(
        program,
        "G21 G90 G94\n(demo)\nM3 S12000\nG0 X0 Y0 Z5\nG1 X10 Z-1 F600\nY10\nG0 Z5\nX0 Y0\nM5\nM2"
    );
}

#[test]
fn contour_pipeline_posts_without_collisions() {
    let tool = Tool::new(mm(8.0), mm(800.0), mm(220.0), mm(14000.0)).unwrap();
    let mut linking = LinkingSettings::new(mm(8.0), mm(15.0), tool.plunge_rate);
    linking.lead_in = LeadStrategy::Linear { length: mm(5.0) };
    linking.lead_out = LeadStrategy::Linear { length: mm(5.0) };
    let settings = OperationSettings::new(tool.clone(), linking);

    let boundary = vec![
        Point2::new(mm(0.0), mm(0.0)),
        Point2::new(mm(60.0), mm(0.0)),
        Point2::new(mm(60.0), mm(40.0)),
        Point2::new(mm(0.0), mm(40.0)),
    ];
    let op = ContourOperation::new(
        "panel",
        boundary,
        ContourSide::Outside,
        mm(0.0),
        mm(-4.0),
        mm(2.0),
        settings,
        vec![Tab::new(mm(0.25), mm(4.0), mm(1.0))],
    )
    .unwrap();

    let toolpath = op.plan().unwrap();
    let program = write_program(&toolpath, &tool).unwrap();
    validate_program(&program).unwrap();
}

#[test]
fn pocket_program_passes_smoke_validation() {
    let tool = Tool::new(mm(6.0), mm(700.0), mm(180.0), mm(11000.0)).unwrap();
    let mut linking = LinkingSettings::new(mm(6.0), mm(10.0), tool.plunge_rate);
    linking.lead_in = LeadStrategy::Linear { length: mm(3.0) };
    linking.lead_out = LeadStrategy::Linear { length: mm(3.0) };
    linking.ramp = RampStrategy::Plunge;
    let settings = OperationSettings::new(tool.clone(), linking);

    let boundary = vec![
        Point2::new(mm(0.0), mm(0.0)),
        Point2::new(mm(40.0), mm(0.0)),
        Point2::new(mm(40.0), mm(30.0)),
        Point2::new(mm(0.0), mm(30.0)),
    ];
    let op =
        PocketOperation::new("smoke", boundary, mm(0.0), mm(-5.0), mm(2.0), mm(3.0), settings).unwrap();

    let toolpath = op.plan().unwrap();
    let program = write_program(&toolpath, &tool).unwrap();
    validate_program(&program).unwrap();

    let report = simulate(&toolpath, SimulationSettings::new(toolpath.safe_z, mm(-6.0))).unwrap();
    assert!(report.is_ok(), "simulation collisions: {:?}", report.collisions);
}

#[test]
fn post_rejects_what_cannot_be_written() {
    let tool = Tool::new(mm(6.0), mm(600.0), mm(200.0), mm(12000.0)).unwrap();
    let empty = Toolpath::new("none", mm(5.0));
    assert_eq!(
        write_program(&empty, &tool).unwrap_err().to_string(),
        "invalid input: toolpath must contain at least one motion"
    );
    let mut bad_feed = Toolpath::new("feed", mm(5.0));
    bad_feed.push(ToolMotion::Feed { to: Point3::new(0, 0, 0), feed: 0 });
    assert_eq!(
        write_program(&bad_feed, &tool).unwrap_err().to_string(),
        "invalid argument: feed rate must be positive"
    );
    let mut bad_dwell = Toolpath::new("dwell", mm(5.0));
    bad_dwell.push(ToolMotion::Dwell { seconds: -1 });
    assert_eq!(
        write_program(&bad_dwell, &tool).unwrap_err().to_string(),
        "invalid argument: dwell duration must be positive"
    );
    let no_spindle = Tool { diameter: 1, feed_rate: 1, plunge_rate: 1, spindle_rpm: 0 };
    let mut path = Toolpath::new("p", mm(5.0));
    path.push(ToolMotion::Dwell { seconds: 1 });
    assert_eq!(
        write_program(&path, &no_spindle).unwrap_err().to_string(),
        "invalid argument: spindle RPM must be positive"
    );
}

#[test]
fn post_returns_to_the_configured_home() {
    let tool = Tool::new(mm(6.0), mm(600.0), mm(200.0), mm(12000.0)).unwrap();
    let mut path = Toolpath::new("home", mm(5.0));
    path.push(ToolMotion::Feed { to: Point3::new(mm(1.0), mm(2.0), mm(-1.0)), feed: mm(100.0) });
    path.push(ToolMotion::Dwell { seconds: mm(1.5) });
    let config = GrblConfig { home_x: mm(-10.0), home_y: mm(20.0) };
    let program = write_program_with_config(&path, &tool, config).unwrap();
    assert_eq!(
        program,
        "G21 G90 G94\n(home)\nM3 S12000\nG1 X1 Y2 Z-1 F100\nG4 P1.5\nG0 Z5\nX-10 Y20\nM5\nM2"
    );
    validate_program(&program).unwrap();
    assert_eq!(GrblConfig::default(), GrblConfig { home_x: 0, home_y: 0 });
}

#[test]
fn a_name_that_closes_and_opens_a_comment_is_passed_over() {
    let tool = Tool::new(mm(6.0), mm(600.0), mm(200.0), mm(12000.0)).unwrap();
    for name in ["a)(b", "plain", "a) (b", "two\n(lines", "x) M5 (y"] {
        let mut path = Toolpath::new(name, mm(5.0));
        path.push(ToolMotion::Rapid { to: Point3::new(0, 0, mm(5.0)) });
        let program = write_program(&path, &tool).unwrap();
        validate_program(&program).unwrap();
    }
    for name in ["a)b", "a) Q1", "two\nlines", "x) M5 M3 (y"] {
        let mut path = Toolpath::new(name, mm(5.0));
        path.push(ToolMotion::Rapid { to: Point3::new(0, 0, mm(5.0)) });
        let program = write_program(&path, &tool).unwrap();
        assert!(validate_program(&program).is_err(), "{name}");
    }
}

#[test]
fn a_name_that_closes_the_comment_breaks_the_program() {
    let tool = Tool::new(mm(6.0), mm(600.0), mm(200.0), mm(12000.0)).unwrap();
    let mut path = Toolpath::new("a) Q1", mm(5.0));
    path.push(ToolMotion::Rapid { to: Point3::new(0, 0, mm(5.0)) });
    let program = write_program(&path, &tool).unwrap();
    assert_eq!(
        validate_program(&program).unwrap_err().to_string(),
        "invalid input: line 2: unsupported address Q"
    );
}

fn fault(program: &str) -> String {
    validate_program(program).unwrap_err().to_string()
}

#[test]
fn validator_names_the_first_fault() {
    assert_eq!(fault(""), "invalid input: program is empty");
    assert_eq!(fault(" \n\t \r\n"), "invalid input: program is empty");
    assert_eq!(fault("G0 X1"), "invalid input: program missing M2 end");
    assert_eq!(fault("G0 X1\n1X\nM2"), "invalid input: line 2: invalid token '1X'");
    assert_eq!(fault("\u{e9}5 M2"), "invalid input: line 1: invalid token '\u{e9}5'");
    assert_eq!(fault("G0 X1 x2\nM2"), "invalid input: line 1: repeated letter 'X'");
    assert_eq!(fault("M2\n\nG2 X1"), "invalid input: line 3: unsupported G-code 2");
    assert_eq!(fault("M2 G"), "invalid input: line 1: unsupported G-code ");
    assert_eq!(fault("M30"), "invalid input: line 1: unsupported M-code 30");
    assert_eq!(fault("M2\nX1.2.3"), "invalid input: line 2: expected numeric value after X");
    assert_eq!(fault("M2\nf"), "invalid input: line 2: expected numeric value after F");
    assert_eq!(fault("M2 T1"), "invalid input: line 1: unsupported address T");
    assert_eq!(fault("G0 Q1\nG5\nM2"), "invalid input: line 1: unsupported address Q");
    assert_eq!(fault("(G0"), "invalid input: program missing M2 end");
    // what stands in a comment is no word: the end must be a word of the program
    assert_eq!(fault("G0 X1 (M2)"), "invalid input: program missing M2 end");
    assert_eq!(fault("G0 (open\n(M2)"), "invalid input: program missing M2 end");
    assert_eq!(fault("G0 X1\n(M2"), "invalid input: program missing M2 end");
    assert_eq!(fault("M3 S1M2"), "invalid input: line 1: expected numeric value after S");
    assert_eq!(fault("M2 M2"), "invalid input: line 1: repeated letter 'M'");
}

#[test]
fn validator_accepts_what_the_controller_takes() {
    validate_program("G21 G90 G94\nG0 X0 Y0 Z5\nM2").unwrap();
    validate_program("g1 x1.5 y-2 z+3e2 f1E-3 s.5 p5.\n  M2  ").unwrap();
    // letters count in either case, the end of the program too
    validate_program("g21 g90 g94\ng0 x1.5\nm2").unwrap();
    validate_program("M2\nG0 X1").unwrap();
    validate_program("G0 G1 G4 G21 G90 G94 M3\nM2").unwrap();
    validate_program("(a comment) G0 (another) X1\r\nS5 (M2) M2\n").unwrap();
    validate_program("G(x)0 X(y)1\nM2").unwrap();
    validate_program("G0\u{a0}X1\u{3000}Y2\nM2").unwrap();
    validate_program("Xinf Y-Infinity ZNaN F+nan\nM2").unwrap();
    // an open comment ends with its line
    validate_program("G0 (open\nM2").unwrap();
    validate_program("M(x)2").unwrap();
}

#[test]
fn numbers_are_what_the_standard_library_parses() {
    let samples = [
        "", "0", "1", "-1", "+1", "1.", ".1", ".", "-.", "1.5", "-1.5", "+.5e3", "1e5", "1e", "1e+",
        "1e+5", "1E-5", "1e5.", "1.e5", ".e5", "e5", "1ee5", "--1", "+-1", "1-", "1+1", "inf", "INF",
        "-inf", "+Infinity", "infinit", "infinityx", "nan", "NaN", "-NAN", "nanx", "na", "in",
        "0x10", "1_000", "1,5", " 1", "1 ", "12345678901234567890123456789", "1e999", "0.0000001",
        "١", "1٢", "i", "n", "+", "-", "1.2.3", "1e1e1", "1.5e-3", "007", "-0", "+0.0e+0", "5.e",
        "infinity", "iNfInItY", "+n", "1f", "1d", "٫5",
    ];
    for sample in samples {
        let chars: Vec<char> = sample.chars().collect();
        assert_eq!(
            parses_as_number(&chars),
            sample.parse::<f64>().is_ok(),
            "sample {sample:?}"
        );
    }
}
