use rareships::{cube_coordinates_to_offset_coordinates, offset_coordinates_to_cube_coordinates};

#[test]
fn coordinates_calculation_works() {
    let cases = vec![
        (0, 0),
        (1, 0),
        (0, 1),
        (1, 1),
        (2, 1),
        (1, 2),
        (2, 2),
        (3, 2),
        (2, 3),
        (3, 3),
        (4, 3),
        (3, 4),
        (4, 4),
        (5, 4),
        (4, 5),
        (5, 5),
    ];
    for c in cases {
        let (q, r, s) = offset_coordinates_to_cube_coordinates(c);
        let c2 = cube_coordinates_to_offset_coordinates((q, r, s));
        assert_eq!(c, c2);
    }
}

#[test]
fn cube_components_sum_to_zero() {
    let (q, r, s) = offset_coordinates_to_cube_coordinates((3, 5));
    assert_eq!((q, r, s), (1, 5, -6));
    assert_eq!(q + r + s, 0);
}
