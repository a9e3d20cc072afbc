use automaton::engine::{run, BoundaryPolicy};
use automaton::parse::parse_input;
use automaton::render::render_bitmap;

fn bits(s: &str) -> Vec<bool> {
    s.chars().map(|c| c == '1').collect()
}

#[test]
fn render_small_bitmap() {
    let rows = vec![bits("101"), bits("010")];
    let lines = render_bitmap(3, 2, &rows);
    assert_eq!(lines.len(), 4);
    assert_eq!(lines[0], b"P1".to_vec());
    assert_eq!(lines[1], b"3 2".to_vec());
    assert_eq!(lines[2], b"1 0 1".to_vec());
    assert_eq!(lines[3], b"0 1 0".to_vec());
}

#[test]
fn dimension_line_matches_width_and_height() {
    let rows: Vec<Vec<bool>> = (0..10).map(|_| vec![false; 256]).collect();
    let lines = render_bitmap(256, 10, &rows);
    assert_eq!(lines[1], b"256 10".to_vec());
}

#[test]
fn data_lines_count_and_token_count() {
    let width = 7;
    let height = 5;
    let rows = run(30, bits("0001000"), height, BoundaryPolicy::Wrapping);
    let lines = render_bitmap(width, height, &rows);
    // one data line per generation
    assert_eq!(lines.len() - 2, height);
    for line in &lines[2..] {
        let text = String::from_utf8(line.clone()).unwrap();
        // exactly one token per cell, each a single 0 or 1
        let tokens: Vec<&str> = text.split_whitespace().collect();
        assert_eq!(tokens.len(), width);
        for token in tokens {
            assert!(token == "0" || token == "1");
        }
    }
}

#[test]
fn render_zero_height() {
    let lines = render_bitmap(4, 0, &Vec::new());
    assert_eq!(lines.len(), 2);
    assert_eq!(lines[1], b"4 0".to_vec());
}

#[test]
fn end_to_end_rule_30() {
    let initial = parse_input(&b"0b00100".to_vec()).unwrap();
    let rows = run(30, initial, 2, BoundaryPolicy::Wrapping);
    let lines = render_bitmap(5, 2, &rows);
    assert_eq!(lines[0], b"P1".to_vec());
    assert_eq!(lines[1], b"5 2".to_vec());
    assert_eq!(lines[2], b"0 0 1 0 0".to_vec());
    assert_eq!(lines[3], b"0 1 1 1 0".to_vec());
}
