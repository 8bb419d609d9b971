use btwn::{parse_range, process_range, select_lines, Action, FilterError, Interval, Selector};

const INPUT: &str = "a
b
c
d
e
f
g";

fn lines_of(text: &str) -> Vec<String> {
    text.lines().map(String::from).collect()
}

fn run(range: &str) -> Result<String, FilterError> {
    process_range(range, &lines_of(INPUT))
}

#[test]
fn it_prints_inclusive_ranges_correctly() {
    let output = run("2...5").unwrap();

    assert_eq!(output, "b
c
d
e
");
}

#[test]
fn it_prints_exclusive_ranges_correctly() {
    let output = run("2..5").unwrap();

    assert_eq!(output, "b
c
d
");
}

#[test]
fn it_prints_single_line_correctly() {
    let output = run("4").unwrap();

    assert_eq!(output, "d
");
}

#[test]
fn open_end_runs_to_last_line() {
    assert_eq!(run("3..").unwrap(), "c\nd\ne\nf\ng\n");
}

#[test]
fn open_start_exclusive() {
    assert_eq!(run("..4").unwrap(), "a\nb\nc\n");
}

#[test]
fn open_start_inclusive() {
    assert_eq!(run("...4").unwrap(), "a\nb\nc\nd\n");
}

#[test]
fn whole_input() {
    assert_eq!(run("...").unwrap(), "a\nb\nc\nd\ne\nf\ng\n");
    assert_eq!(run("").unwrap(), "a\nb\nc\nd\ne\nf\ng\n");
}

#[test]
fn single_line_beyond_input_is_empty() {
    assert_eq!(run("8").unwrap(), "");
    assert_eq!(run("7").unwrap(), "g\n");
}

#[test]
fn start_beyond_input_is_empty() {
    assert_eq!(run("9...12").unwrap(), "");
    assert_eq!(run("8..").unwrap(), "");
}

#[test]
fn end_beyond_input_is_clipped() {
    assert_eq!(run("6...100").unwrap(), "f\ng\n");
}

#[test]
fn empty_interval_selects_nothing() {
    assert_eq!(run("3..3").unwrap(), "");
    assert_eq!(run("0").unwrap(), "");
}

#[test]
fn empty_input() {
    assert_eq!(process_range("1...3", &Vec::new()).unwrap(), "");
}

#[test]
fn malformed_expression_reports_error() {
    assert_eq!(run("abc"), Err(FilterError::InvalidRangeSyntax));
    assert_eq!(run("5...2"), Err(FilterError::InvalidRangeSyntax));
    assert_eq!(run("2.6"), Err(FilterError::InvalidRangeSyntax));
}

#[test]
fn reselecting_a_selection_keeps_it() {
    let first = run("2...5").unwrap();
    let selected = lines_of(&first);
    let again = process_range(&format!("1...{}", selected.len()), &selected).unwrap();
    assert_eq!(again, first);
}

#[test]
fn exclusive_and_inclusive_agree_on_output() {
    assert_eq!(run("2..6").unwrap(), run("2...5").unwrap());
}

#[test]
fn select_lines_keeps_order_and_empty_lines() {
    let lines = lines_of("x\n\ny\nz");
    let out = select_lines(Interval { start: 0, end: 3 }, &lines);
    assert_eq!(out, "x\n\ny\n");
}

#[test]
fn selector_stops_after_interval() {
    let mut sel = Selector::new(parse_range("2..4").unwrap());
    assert_eq!(sel.next_action(), Action::Skip);
    assert_eq!(sel.next_action(), Action::Take);
    assert_eq!(sel.next_action(), Action::Take);
    assert_eq!(sel.next_action(), Action::Stop);
    assert_eq!(sel.next_action(), Action::Stop);
}

#[test]
fn selector_with_start_after_end_takes_nothing() {
    let mut sel = Selector::new(Interval { start: 3, end: 1 });
    assert_eq!(sel.next_action(), Action::Skip);
    assert_eq!(sel.next_action(), Action::Stop);
}
