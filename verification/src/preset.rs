//! Built-in initial states: a row drawn at random, a single live centre
//! cell, live corner cells, or alternating dead and live cells.

use vstd::prelude::*;

verus! {

/// The built-in choices for the generation-0 row.
#[derive(Clone, Copy, Debug, PartialEq, Eq, Structural)]
pub enum PresetOption {
    Random,
    Centre,
    Corners,
    Alternate,
}

/// Relies on `rand::random`: draws one boolean from the thread-local
/// generator. The outcome is random, so nothing is promised of it.
#[verifier::external_body]
fn random_cell() -> bool {
    rand::random::<bool>()
}

/// Build the generation-0 row for a preset and a width.
///
/// `Random` draws each cell independently; `Centre` wakes only the cell at
/// `width / 2`; `Corners` wakes only the two end cells; `Alternate` wakes
/// exactly the odd positions.
pub fn generate_preset_state(option: &PresetOption, width: &usize) -> (state: Vec<bool>)
    requires
        *width >= 3,
    ensures
        state@.len() == *width,
        *option == PresetOption::Centre ==> forall|i: int|
            0 <= i < *width ==> (state@[i] <==> i == *width / 2),
        *option == PresetOption::Corners ==> forall|i: int|
            0 <= i < *width ==> (state@[i] <==> (i == 0 || i == *width - 1)),
        *option == PresetOption::Alternate ==> forall|i: int|
            0 <= i < *width ==> (state@[i] <==> i % 2 == 1),
{
    let w: usize = *width;
    let mut state: Vec<bool> = Vec::new();
    match option {
        PresetOption::Random => {
            let mut i: usize = 0;
            while i < w
                invariant
                    i <= w,
                    state@.len() == i,
                decreases w - i,
            {
                state.push(random_cell());
                i = i + 1;
            }
        },
        PresetOption::Centre => {
            let mut i: usize = 0;
            while i < w
                invariant
                    i <= w,
                    state@.len() == i,
                    forall|j: int| 0 <= j < i ==> (state@[j] <==> j == w / 2),
                decreases w - i,
            {
                state.push(i == w / 2);
                i = i + 1;
            }
        },
        PresetOption::Corners => {
            let mut i: usize = 0;
            while i < w
                invariant
                    i <= w,
                    w >= 3,
                    state@.len() == i,
                    forall|j: int| 0 <= j < i ==> (state@[j] <==> (j == 0 || j == w - 1)),
                decreases w - i,
            {
                state.push(i == 0 || i == w - 1);
                i = i + 1;
            }
        },
        PresetOption::Alternate => {
            let mut i: usize = 0;
            while i < w
                invariant
                    i <= w,
                    state@.len() == i,
                    forall|j: int| 0 <= j < i ==> (state@[j] <==> j % 2 == 1),
                decreases w - i,
            {
                state.push(i % 2 == 1);
                i = i + 1;
            }
        },
    }
    state
}

} // verus!
