use puckepy::phase::{phase_steps, PhaseSteps, Sign};
use puckepy::sixring::{
    alternating_sign, bond_angle, closing_side, flap_dihedral, neighbour, BondAngle, Z_SIZE,
};

#[test]
fn ring_has_six_atoms() {
    assert_eq!(Z_SIZE, 6);
}

#[test]
fn neighbour_wraps_around() {
    assert_eq!(neighbour(0, 1), 1);
    assert_eq!(neighbour(4, 1), 5);
    assert_eq!(neighbour(5, 1), 0);
    assert_eq!(neighbour(4, 2), 0);
    assert_eq!(neighbour(5, 2), 1);
    assert_eq!(neighbour(3, 0), 3);
    for j in 0..Z_SIZE {
        assert_eq!(neighbour(j, 1), (j + 1) % Z_SIZE);
        assert_eq!(neighbour(j, 2), (j + 2) % Z_SIZE);
        assert_eq!(neighbour(j, 6), j);
        assert_eq!(neighbour(neighbour(j, 2), 3), neighbour(j, 5));
    }
}

#[test]
fn neighbour_of_large_numbers() {
    assert_eq!(neighbour(usize::MAX, usize::MAX), ((usize::MAX % 6) * 2) % 6);
    assert_eq!(neighbour(7, 13), 2);
}

#[test]
fn bond_angles_of_the_ring() {
    assert_eq!(bond_angle(0), BondAngle { i: 0, j: 1, k: 2 });
    assert_eq!(bond_angle(3), BondAngle { i: 3, j: 4, k: 5 });
    assert_eq!(bond_angle(4), BondAngle { i: 4, j: 5, k: 0 });
    assert_eq!(bond_angle(5), BondAngle { i: 5, j: 0, k: 1 });
    assert_eq!(bond_angle(6), bond_angle(0));
}

#[test]
fn closing_triangle() {
    assert_eq!(closing_side(0), BondAngle { i: 0, j: 1, k: 2 });
    assert_eq!(closing_side(1), BondAngle { i: 2, j: 3, k: 4 });
    assert_eq!(closing_side(2), BondAngle { i: 4, j: 5, k: 0 });
    assert_eq!(closing_side(3), closing_side(0));
    for k in 0..3 {
        assert_eq!(closing_side(k).k, closing_side(k + 1).i);
    }
}

#[test]
fn flap_dihedrals() {
    assert_eq!(flap_dihedral(0), (4, 0, 2, 1));
    assert_eq!(flap_dihedral(1), (0, 2, 4, 3));
    assert_eq!(flap_dihedral(2), (2, 4, 0, 5));
    assert_eq!(flap_dihedral(3), flap_dihedral(0));
}

#[test]
fn signs_alternate() {
    assert_eq!(alternating_sign(0), 1);
    assert_eq!(alternating_sign(1), -1);
    assert_eq!(alternating_sign(2), 1);
    assert_eq!(alternating_sign(5), -1);
    assert_eq!(alternating_sign(usize::MAX), -1);
    let total: i32 = (0..Z_SIZE).map(|j| i32::from(alternating_sign(j))).sum();
    assert_eq!(total, 0);
    for j in 0..Z_SIZE {
        assert_eq!(alternating_sign(j) + alternating_sign(neighbour(j, 1)), 0);
    }
}

#[test]
fn phase_steps_by_sign() {
    assert_eq!(
        phase_steps(Sign::Negative),
        PhaseSteps { from_half_turn: true, from_full_turn: true, less_half_turn: false }
    );
    assert_eq!(
        phase_steps(Sign::Zero),
        PhaseSteps { from_half_turn: true, from_full_turn: false, less_half_turn: false }
    );
    assert_eq!(
        phase_steps(Sign::Positive),
        PhaseSteps { from_half_turn: false, from_full_turn: false, less_half_turn: true }
    );
    assert_eq!(
        phase_steps(Sign::Unordered),
        PhaseSteps { from_half_turn: false, from_full_turn: false, less_half_turn: false }
    );
}

#[test]
fn phase_steps_are_the_three_comparisons() {
    for (x, sign) in [
        (-2.5f64, Sign::Negative),
        (-0.0, Sign::Zero),
        (0.0, Sign::Zero),
        (1e-300, Sign::Positive),
        (f64::INFINITY, Sign::Positive),
        (f64::NAN, Sign::Unordered),
    ] {
        let steps = phase_steps(sign);
        assert_eq!(steps.from_half_turn, x <= 0.0);
        assert_eq!(steps.from_full_turn, x < 0.0);
        assert_eq!(steps.less_half_turn, x > 0.0);
    }
}

// The phase angle in whole degrees, for an arc tangent of `raw` degrees.
fn phase_in_degrees(raw: i32, sum1: Sign) -> i32 {
    let steps = phase_steps(sum1);
    let mut angle = raw;
    if steps.from_half_turn {
        angle = 180 - angle;
    }
    if steps.from_full_turn {
        angle = 360 - angle;
    }
    if steps.less_half_turn {
        angle -= 180;
    }
    if angle < 0 {
        angle += 360;
    }
    angle
}

#[test]
fn phase_is_half_a_turn_ahead() {
    assert_eq!(phase_in_degrees(120, Sign::Negative), 300);
    assert_eq!(phase_in_degrees(-120, Sign::Negative), 60);
    assert_eq!(phase_in_degrees(-180, Sign::Negative), 0);
    assert_eq!(phase_in_degrees(30, Sign::Positive), 210);
    assert_eq!(phase_in_degrees(-30, Sign::Positive), 150);
    assert_eq!(phase_in_degrees(0, Sign::Positive), 180);
    for raw in 91..=180 {
        assert_eq!(phase_in_degrees(raw, Sign::Negative), raw + 180);
        assert_eq!(phase_in_degrees(-raw, Sign::Negative), 180 - raw);
    }
    for raw in -89..=89 {
        assert_eq!(phase_in_degrees(raw, Sign::Positive), raw + 180);
    }
}

#[test]
fn phase_is_mirrored_where_the_sum_is_zero() {
    assert_eq!(phase_in_degrees(90, Sign::Zero), 90);
    assert_eq!(phase_in_degrees(-90, Sign::Zero), 270);
    assert_eq!(phase_in_degrees(0, Sign::Zero), 180);
}

#[test]
fn phase_within_a_turn() {
    for raw in 91..=180 {
        for raw in [raw, -raw] {
            let phase = phase_in_degrees(raw, Sign::Negative);
            assert!(0 <= phase && phase <= 360);
            assert_eq!(phase == 360, raw == 180);
        }
    }
    for raw in -89..=89 {
        let phase = phase_in_degrees(raw, Sign::Positive);
        assert!(0 <= phase && phase < 360);
    }
}

#[test]
fn phase_of_a_full_turn() {
    // an arc tangent of half a turn over a sum below zero
    assert_eq!(phase_in_degrees(180, Sign::Negative), 360);
}
