use life_grid::cell::Cell;

#[test]
fn cell_from_u8_zero_is_dead() {
    assert_eq!(Cell::from(0u8), Cell::Dead);
}

#[test]
fn cell_from_u8_nonzero_is_alive() {
    assert_eq!(Cell::from(1u8), Cell::Alive);
    assert_eq!(Cell::from(7u8), Cell::Alive);
    assert_eq!(Cell::from(255u8), Cell::Alive);
}

#[test]
fn u8_from_cell_is_the_stored_bit() {
    assert_eq!(u8::from(Cell::Dead), 0u8);
    assert_eq!(u8::from(Cell::Alive), 1u8);
}

#[test]
fn cell_round_trips_through_its_bit() {
    assert_eq!(Cell::from(u8::from(Cell::Dead)), Cell::Dead);
    assert_eq!(Cell::from(u8::from(Cell::Alive)), Cell::Alive);
}
