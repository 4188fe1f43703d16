use key_matrix::geometry::{Geometry, KeyEvent, Wiring, COORDINATE_LIMIT};

#[test]
fn col2row_drives_columns_and_senses_rows() {
    let geometry = Geometry::new(4, 6, 0, 0, Wiring::Col2Row);
    assert_eq!(geometry.drive_lines, 6);
    assert_eq!(geometry.sense_lines, 4);
    assert_eq!(geometry.wiring, Wiring::Col2Row);
}

#[test]
fn row2col_drives_rows_and_senses_columns() {
    let geometry = Geometry::new(4, 6, 1, 2, Wiring::Row2Col);
    assert_eq!(geometry.drive_lines, 4);
    assert_eq!(geometry.sense_lines, 6);
    assert_eq!(geometry.row_offset, 1);
    assert_eq!(geometry.col_offset, 2);
}

#[test]
fn col2row_event_has_sense_line_as_row() {
    let geometry = Geometry::new(4, 6, 10, 20, Wiring::Col2Row);
    assert_eq!(
        geometry.key_event(5, 3, true),
        KeyEvent { row: 13, col: 25, pressed: true }
    );
    assert_eq!(
        geometry.key_event(0, 0, false),
        KeyEvent { row: 10, col: 20, pressed: false }
    );
}

#[test]
fn row2col_event_has_drive_line_as_row() {
    let geometry = Geometry::new(4, 6, 10, 20, Wiring::Row2Col);
    assert_eq!(
        geometry.key_event(3, 5, true),
        KeyEvent { row: 13, col: 25, pressed: true }
    );
    assert_eq!(
        geometry.key_event(1, 0, false),
        KeyEvent { row: 11, col: 20, pressed: false }
    );
}

#[test]
fn geometry_is_valid_up_to_the_coordinate_limit() {
    assert_eq!(COORDINATE_LIMIT, 256);
    assert!(Geometry::new(256, 256, 0, 0, Wiring::Col2Row).is_valid());
    assert!(Geometry::new(1, 1, 255, 255, Wiring::Row2Col).is_valid());
    assert!(Geometry::new(0, 0, 256, 256, Wiring::Col2Row).is_valid());
    assert!(Geometry::new(6, 1, 250, 255, Wiring::Col2Row).is_valid());
    let corner = Geometry::new(1, 1, 255, 255, Wiring::Col2Row);
    assert_eq!(corner.key_event(0, 0, true), KeyEvent { row: 255, col: 255, pressed: true });
}

#[test]
fn geometry_is_invalid_beyond_the_coordinate_limit() {
    assert!(!Geometry::new(257, 1, 0, 0, Wiring::Col2Row).is_valid());
    assert!(!Geometry::new(1, 257, 0, 0, Wiring::Col2Row).is_valid());
    assert!(!Geometry::new(2, 1, 255, 0, Wiring::Row2Col).is_valid());
    assert!(!Geometry::new(1, 2, 0, 255, Wiring::Row2Col).is_valid());
    assert!(!Geometry::new(0, 0, 257, 0, Wiring::Col2Row).is_valid());
    assert!(!Geometry::new(1, 1, usize::MAX, 0, Wiring::Col2Row).is_valid());
    assert!(!Geometry::new(usize::MAX, usize::MAX, 1, 1, Wiring::Row2Col).is_valid());
}

#[test]
fn validity_follows_the_wiring() {
    let tall = Geometry {
        drive_lines: 2,
        sense_lines: 8,
        row_offset: 250,
        col_offset: 0,
        wiring: Wiring::Row2Col,
    };
    assert!(tall.is_valid());
    let turned = Geometry { wiring: Wiring::Col2Row, ..tall };
    assert!(!turned.is_valid());
}
