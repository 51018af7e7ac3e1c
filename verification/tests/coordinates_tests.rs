use color_wars::coordinates::Coordinates;
use color_wars::errors::GameError;
use color_wars::{BOARD_COLUMN_SIZE, BOARD_ROW_SIZE};

#[test]
fn new_coordinates_valid() {
    for row in 0..BOARD_ROW_SIZE {
        for column in 0..BOARD_COLUMN_SIZE {
            let coordinates = Coordinates::new(row, column);

            assert_eq!(coordinates.row(), row);
            assert_eq!(coordinates.column(), column);
        }
    }
}

#[test]
fn coordinates_getters() {
    for row in 0..BOARD_ROW_SIZE {
        for column in 0..BOARD_COLUMN_SIZE {
            let coordinates = Coordinates::new(row, column);

            assert_eq!(coordinates.row(), row);
            assert_eq!(coordinates.column(), column);
        }
    }
}

#[test]
fn try_new_rejects_out_of_range_indices() {
    assert_eq!(
        Coordinates::try_new(BOARD_ROW_SIZE, 0),
        Err(GameError::OutOfBounds)
    );
    assert_eq!(
        Coordinates::try_new(0, BOARD_COLUMN_SIZE),
        Err(GameError::OutOfBounds)
    );
    assert_eq!(
        Coordinates::try_new(BOARD_ROW_SIZE, BOARD_COLUMN_SIZE),
        Err(GameError::OutOfBounds)
    );
    assert_eq!(Coordinates::try_new(2, 3), Ok(Coordinates::new(2, 3)));
}

#[test]
fn neighbors_at_corner_and_interior() {
    // A corner has two neighbours, in the order south, east.
    let corner = Coordinates::new(0, 0).neighbors();
    assert_eq!(
        corner,
        vec![Coordinates::new(1, 0), Coordinates::new(0, 1)]
    );

    // An interior cell has four, in the order north, south, west, east.
    let interior = Coordinates::new(2, 2).neighbors();
    assert_eq!(
        interior,
        vec![
            Coordinates::new(1, 2),
            Coordinates::new(3, 2),
            Coordinates::new(2, 1),
            Coordinates::new(2, 3),
        ]
    );

    // The opposite corner's neighbours come in the order north, west.
    let far_corner = Coordinates::new(4, 4).neighbors();
    assert_eq!(
        far_corner,
        vec![Coordinates::new(3, 4), Coordinates::new(4, 3)]
    );
}
