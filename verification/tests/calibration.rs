use magneto::{design_row, require_inverse, CalibrationError, CalibrationState, Sample};
use nalgebra::Matrix4;

fn rows_of(state: &CalibrationState) -> Vec<Vec<i128>> {
    (0..10).map(|i| (0..10).map(|j| state.gram(i, j)).collect()).collect()
}

#[test]
fn design_row_of_a_reading() {
    let row = design_row(Sample { x: 1, y: 2, z: 3 });
    assert_eq!(row, [1, 4, 9, 12, 6, 4, 2, 4, 6, 1]);
    let row = design_row(Sample { x: -2, y: 5, z: -7 });
    assert_eq!(row, [4, 25, 49, -70, 28, -20, -4, 10, -14, 1]);
}

#[test]
fn design_row_at_the_edge_of_the_range() {
    let row = design_row(Sample { x: i16::MIN, y: i16::MIN, z: i16::MAX });
    assert_eq!(
        row,
        [
            1073741824,
            1073741824,
            1073676289,
            -2147418112,
            -2147418112,
            2147483648,
            -65536,
            -65536,
            65534,
            1
        ]
    );
}

#[test]
fn norm_squared_of_a_reading() {
    assert_eq!(Sample { x: 1, y: 2, z: 3 }.norm_squared(), 14);
    assert_eq!(Sample { x: 0, y: 0, z: 0 }.norm_squared(), 0);
    assert_eq!(Sample { x: i16::MIN, y: i16::MIN, z: i16::MIN }.norm_squared(), 3221225472);
}

#[test]
fn new_session_is_empty() {
    let state = CalibrationState::new();
    assert_eq!(state.sample_count(), 0);
    assert_eq!(rows_of(&state), vec![vec![0i128; 10]; 10]);
}

#[test]
fn sample_counts_and_accumulates() {
    let mut state = CalibrationState::new();
    state.sample(Sample { x: 1, y: 2, z: 3 });
    assert_eq!(state.sample_count(), 1);
    let d: [i128; 10] = [1, 4, 9, 12, 6, 4, 2, 4, 6, 1];
    for i in 0..10 {
        for j in 0..10 {
            assert_eq!(state.gram(i, j), d[i] * d[j]);
        }
    }
    state.sample(Sample { x: -1, y: 0, z: 2 });
    assert_eq!(state.sample_count(), 2);
    let e: [i128; 10] = [1, 0, 4, 0, -4, 0, -2, 0, 4, 1];
    for i in 0..10 {
        for j in 0..10 {
            assert_eq!(state.gram(i, j), d[i] * d[j] + e[i] * e[j]);
        }
    }
}

#[test]
fn the_corner_entry_counts_the_readings() {
    let mut state = CalibrationState::new();
    for k in 0..37i16 {
        state.sample(Sample { x: k, y: -k, z: 2 * k + 1 });
    }
    assert_eq!(state.gram(9, 9), 37);
    assert_eq!(state.sample_count(), 37);
}

#[test]
fn order_of_readings_does_not_matter() {
    let readings = [
        Sample { x: 120, y: -340, z: 55 },
        Sample { x: -7, y: 8, z: 900 },
        Sample { x: 31000, y: -32000, z: 12 },
        Sample { x: 0, y: 1, z: -1 },
    ];
    let mut forward = CalibrationState::new();
    for s in readings.iter() {
        forward.sample(*s);
    }
    let mut backward = CalibrationState::new();
    for s in readings.iter().rev() {
        backward.sample(*s);
    }
    assert_eq!(rows_of(&forward), rows_of(&backward));
}

#[test]
fn largest_readings_do_not_overflow() {
    let mut state = CalibrationState::new();
    for _ in 0..1000 {
        state.sample(Sample { x: i16::MIN, y: i16::MIN, z: i16::MIN });
    }
    assert_eq!(state.gram(5, 5), 1000i128 * 2147483648 * 2147483648);
    assert_eq!(state.gram(0, 5), 1000i128 * 1073741824 * 2147483648);
}

#[test]
fn empty_session_is_refused() {
    let state = CalibrationState::new();
    assert!(matches!(state.partition(), Err(CalibrationError::EmptyInput)));
}

#[test]
fn partition_cuts_the_four_blocks() {
    let mut state = CalibrationState::new();
    state.sample(Sample { x: 1, y: 2, z: 3 });
    state.sample(Sample { x: -4, y: 5, z: 6 });
    let full = rows_of(&state);
    let p = match state.partition() {
        Ok(p) => p,
        Err(_) => panic!("two readings were ingested"),
    };
    assert_eq!(p.sample_count, 2);
    assert_eq!(p.s11.len(), 6);
    assert_eq!(p.s12.len(), 6);
    assert_eq!(p.s12t.len(), 4);
    assert_eq!(p.s22.len(), 4);
    for i in 0..6 {
        assert_eq!(p.s11[i], full[i][0..6].to_vec());
        assert_eq!(p.s12[i], full[i][6..10].to_vec());
    }
    for i in 0..4 {
        assert_eq!(p.s12t[i], full[6 + i][0..6].to_vec());
        assert_eq!(p.s22[i], full[6 + i][6..10].to_vec());
        for j in 0..6 {
            assert_eq!(p.s12t[i][j], p.s12[j][i]);
        }
    }
    assert_eq!(p.s22[3][3], 2);
    assert_eq!(p.s22[0][3], 2 * (1 - 4));
    assert_eq!(p.s11[0][1], 1 * 4 + 16 * 25);
}

#[test]
fn identical_readings_give_a_singular_linear_block() {
    let mut state = CalibrationState::new();
    for _ in 0..50 {
        state.sample(Sample { x: 1, y: 2, z: 3 });
    }
    let p = match state.partition() {
        Ok(p) => p,
        Err(_) => panic!("fifty readings were ingested"),
    };
    let d: [i128; 4] = [2, 4, 6, 1];
    for i in 0..4 {
        for j in 0..4 {
            assert_eq!(p.s22[i][j], 50 * d[i] * d[j]);
        }
    }
    for i in 0..4 {
        for j in 0..4 {
            for k in 0..4 {
                for l in 0..4 {
                    assert_eq!(p.s22[i][j] * p.s22[k][l] - p.s22[i][l] * p.s22[k][j], 0);
                }
            }
        }
    }
    let s22 = Matrix4::<f64>::from_fn(|i, j| p.s22[i][j] as f64);
    let inverse = require_inverse(s22.lu().try_inverse());
    assert!(matches!(inverse, Err(CalibrationError::SingularMatrix)));
}
