use std::cell::RefCell;
use tilemap_core::buffer::{AccessError, TileBuffer};

#[test]
fn new_buffer_is_zero_filled() {
    let b = TileBuffer::new(3, 2);
    assert_eq!(b.width(), 3);
    assert_eq!(b.height(), 2);
    assert_eq!(b.as_slice(), &[0, 0, 0, 0, 0, 0]);
}

#[test]
fn empty_buffers() {
    let b = TileBuffer::new(0, 5);
    assert_eq!(b.as_slice().len(), 0);
    assert_eq!(b.get(0, 0), Err(AccessError::OutOfBounds { x: 0, y: 0 }));
    let mut c = TileBuffer::new(5, 0);
    assert_eq!(c.set(0, 0, 1), Err(AccessError::OutOfBounds { x: 0, y: 0 }));
    assert_eq!(c.as_slice().len(), 0);
    c.fill(|_, _| panic!("no cell to fill"));
}

#[test]
fn set_then_get_gives_the_tile_back() {
    let mut b = TileBuffer::new(4, 3);
    for y in 0..3u32 {
        for x in 0..4u32 {
            let v = 100 + 10 * y + x;
            assert_eq!(b.set(x, y, v), Ok(()));
            assert_eq!(b.get(x, y), Ok(v));
        }
    }
    assert_eq!(
        b.as_slice(),
        &[100, 101, 102, 103, 110, 111, 112, 113, 120, 121, 122, 123]
    );
}

#[test]
fn set_changes_one_cell_only() {
    let mut b = TileBuffer::new(2, 2);
    assert_eq!(b.set(1, 0, 5), Ok(()));
    assert_eq!(b.as_slice(), &[0, 5, 0, 0]);
    assert_eq!(b.set(0, 1, 7), Ok(()));
    assert_eq!(b.as_slice(), &[0, 5, 7, 0]);
    assert_eq!(b.set(1, 0, u32::MAX), Ok(()));
    assert_eq!(b.as_slice(), &[0, u32::MAX, 7, 0]);
}

#[test]
fn cells_are_stored_row_by_row() {
    let mut b = TileBuffer::new(3, 2);
    assert_eq!(b.set(2, 1, 9), Ok(()));
    assert_eq!(b.as_slice()[1 * 3 + 2], 9);
    assert_eq!(b.set(0, 1, 4), Ok(()));
    assert_eq!(b.as_slice()[3], 4);
}

#[test]
fn access_out_of_bounds_is_refused() {
    let mut b = TileBuffer::new(3, 2);
    b.fill(|x, y| 1 + y * 3 + x);
    let before: Vec<u32> = b.as_slice().to_vec();
    for (x, y) in [(3u32, 0u32), (0, 2), (3, 2), (u32::MAX, 0), (0, u32::MAX), (u32::MAX, u32::MAX)] {
        assert_eq!(b.get(x, y), Err(AccessError::OutOfBounds { x, y }));
        assert_eq!(b.set(x, y, 99), Err(AccessError::OutOfBounds { x, y }));
        assert_eq!(b.as_slice(), &before[..]);
    }
}

#[test]
fn out_of_bounds_x_does_not_wrap_into_the_next_row() {
    let mut b = TileBuffer::new(3, 2);
    assert_eq!(b.set(3, 0, 8), Err(AccessError::OutOfBounds { x: 3, y: 0 }));
    assert_eq!(b.get(0, 1), Ok(0));
    assert_eq!(b.as_slice(), &[0, 0, 0, 0, 0, 0]);
}

#[test]
fn fill_matches_the_oracle() {
    let mut b = TileBuffer::new(5, 4);
    let oracle = |x: u32, y: u32| x * x + 7 * y;
    b.fill(oracle);
    for y in 0..4u32 {
        for x in 0..5u32 {
            assert_eq!(b.get(x, y), Ok(oracle(x, y)));
            assert_eq!(b.as_slice()[(y * 5 + x) as usize], oracle(x, y));
        }
    }
}

#[test]
fn fill_visits_every_cell_once_in_row_major_order() {
    let mut b = TileBuffer::new(3, 2);
    let visited: RefCell<Vec<(u32, u32)>> = RefCell::new(Vec::new());
    b.fill(|x, y| {
        visited.borrow_mut().push((x, y));
        visited.borrow().len() as u32
    });
    assert_eq!(*visited.borrow(), vec![(0, 0), (1, 0), (2, 0), (0, 1), (1, 1), (2, 1)]);
    assert_eq!(b.as_slice(), &[1, 2, 3, 4, 5, 6]);
}

#[test]
fn fill_overwrites_what_was_set() {
    let mut b = TileBuffer::new(2, 2);
    assert_eq!(b.set(1, 1, 77), Ok(()));
    b.fill(|x, y| 10 * x + y);
    assert_eq!(b.as_slice(), &[0, 10, 1, 11]);
    assert_eq!(b.width(), 2);
    assert_eq!(b.height(), 2);
}

#[test]
fn cell_limit_is_an_eighth_of_the_address_space() {
    assert_eq!(TileBuffer::cell_limit(), usize::MAX / 8);
}

#[test]
fn fill_with_state_threads_the_state_in_row_major_order() {
    let mut b = TileBuffer::new(3, 2);
    let visited = b.fill_with_state(Vec::new(), |mut seen: Vec<(u32, u32)>, x, y| {
        seen.push((x, y));
        let tile = seen.len() as u32 * 10;
        (seen, tile)
    });
    assert_eq!(visited, vec![(0, 0), (1, 0), (2, 0), (0, 1), (1, 1), (2, 1)]);
    assert_eq!(b.as_slice(), &[10, 20, 30, 40, 50, 60]);
    assert_eq!(b.width(), 3);
    assert_eq!(b.height(), 2);
}

#[test]
fn fill_with_state_hands_back_the_start_for_an_empty_buffer() {
    let mut b = TileBuffer::new(0, 3);
    let end = b.fill_with_state(41u8, |_, _, _| panic!("no cell to fill"));
    assert_eq!(end, 41);
    assert_eq!(b.as_slice().len(), 0);
}

#[test]
fn fill_with_state_counts_the_cells() {
    let mut b = TileBuffer::new(4, 5);
    let calls = b.fill_with_state(0u32, |n, x, y| (n + 1, 100 * y + x));
    assert_eq!(calls, 20);
    assert_eq!(b.get(3, 4), Ok(403));
    assert_eq!(b.get(0, 1), Ok(100));
}
