use automaton::preset::{generate_preset_state, PresetOption};

fn bits(s: &str) -> Vec<bool> {
    s.chars().map(|c| c == '1').collect()
}

#[test]
fn centre_preset_odd_width() {
    assert_eq!(generate_preset_state(&PresetOption::Centre, &5), bits("00100"));
}

#[test]
fn centre_preset_even_width() {
    assert_eq!(generate_preset_state(&PresetOption::Centre, &4), bits("0010"));
}

#[test]
fn corners_preset() {
    assert_eq!(generate_preset_state(&PresetOption::Corners, &4), bits("1001"));
    assert_eq!(generate_preset_state(&PresetOption::Corners, &3), bits("101"));
}

#[test]
fn alternate_preset() {
    assert_eq!(generate_preset_state(&PresetOption::Alternate, &5), bits("01010"));
    assert_eq!(generate_preset_state(&PresetOption::Alternate, &6), bits("010101"));
}

#[test]
fn random_preset_has_requested_width() {
    let state = generate_preset_state(&PresetOption::Random, &64);
    assert_eq!(state.len(), 64);
}
