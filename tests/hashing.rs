use std::collections::HashSet;

use connect_four::hashing::compute_column_hash;
use connect_four::CellState;

#[test]
fn ensure_perfect_column_hashing() {
    const R: usize = 6;

    let mut seen = HashSet::new();

    let colors = [CellState::Red, CellState::Yellow];

    let mut height = 0;
    while height <= R {
        let patterns = 1usize << height;
        let mut mask = 0;

        while mask < patterns {
            let mut column = [None; R];

            let mut row = 0;
            while row < height {
                let bit = (mask >> row) & 1;
                column[row] = Some(colors[bit]);
                row += 1;
            }

            let hash = compute_column_hash::<R>(&column, height);

            assert!(
                seen.insert(hash),
                "Hash collision for column {:?} at height {}",
                column,
                height
            );

            mask += 1;
        }

        height += 1;
    }

    let expected = (1usize << (R + 1)) - 1;

    assert_eq!(
        seen.len(),
        expected,
        "Expected {} unique hashes, found {}",
        expected,
        seen.len()
    );
}

#[test]
fn column_hash_exact_values() {
    let empty: [Option<CellState>; 6] = [None; 6];
    assert_eq!(compute_column_hash::<6>(&empty, 0), 0);

    let mut column: [Option<CellState>; 6] = [None; 6];
    column[0] = Some(CellState::Red);
    assert_eq!(compute_column_hash::<6>(&column, 1), 2);
    column[0] = Some(CellState::Yellow);
    assert_eq!(compute_column_hash::<6>(&column, 1), 1);

    // red, yellow, red: pattern 0b101 plus offset 2^3 - 1
    column[0] = Some(CellState::Red);
    column[1] = Some(CellState::Yellow);
    column[2] = Some(CellState::Red);
    assert_eq!(compute_column_hash::<6>(&column, 3), 12);

    // a full red column takes the largest key, 2^7 - 2
    let full = [Some(CellState::Red); 6];
    assert_eq!(compute_column_hash::<6>(&full, 6), 126);
}

#[test]
fn column_hash_all_below_radix() {
    const R: usize = 4;
    let colors = [CellState::Red, CellState::Yellow];
    let mut seen = HashSet::new();
    for height in 0..=R {
        for mask in 0..(1usize << height) {
            let mut column = [None; R];
            for row in 0..height {
                column[row] = Some(colors[(mask >> row) & 1]);
            }
            let hash = compute_column_hash::<R>(&column, height);
            assert!(hash < (1u64 << (R + 1)) - 1);
            seen.insert(hash);
        }
    }
    // every value below the radix is the key of exactly one column
    assert_eq!(seen.len(), (1usize << (R + 1)) - 1);
}

#[test]
fn cell_state_other_and_bit() {
    assert_eq!(CellState::Red.other(), CellState::Yellow);
    assert_eq!(CellState::Yellow.other(), CellState::Red);
    assert_eq!(CellState::Red.other().other(), CellState::Red);
    assert_eq!(CellState::Red.to_bit(), 1);
    assert_eq!(CellState::Yellow.to_bit(), 0);
}
