use starbeam::interaction::crack_overlay::{crack_image_data, draw_line};
use starbeam::math::TileIterator;
use starbeam::tile_set::{TileCounter, TileSet};

#[test]
fn tile_iterator_row_major() {
    let tiles = TileIterator::new(2, 4, 7, 8).collect_tiles();
    assert_eq!(tiles, vec![(2, 7), (3, 7), (4, 7), (2, 8), (3, 8), (4, 8)]);
}

#[test]
fn tile_iterator_single_and_empty() {
    assert_eq!(TileIterator::new(3, 3, 3, 3).collect_tiles(), vec![(3, 3)]);
    assert!(TileIterator::new(0, 1, 5, 4).collect_tiles().is_empty());
    let mut it = TileIterator::new(-1, 0, -1, -1);
    assert_eq!(it.next(), Some((-1, -1)));
    assert_eq!(it.next(), Some((0, -1)));
    assert_eq!(it.next(), None);
    assert_eq!(it.next(), None);
}

#[test]
fn tile_set_and_counter() {
    let mut s = TileSet::new();
    assert!(s.insert((1, 2)));
    assert!(!s.insert((1, 2)));
    assert!(s.insert((3, 4)));
    assert_eq!(s.len(), 2);
    assert!(s.remove((1, 2)));
    assert!(!s.remove((1, 2)));
    assert_eq!(s.first_tiles(10), vec![(3, 4)]);
    s.clear();
    assert_eq!(s.len(), 0);

    let mut c = TileCounter::new();
    c.set((0, 0), 3);
    c.set((0, 0), 4);
    c.set((1, 0), 1);
    assert_eq!(c.get((0, 0)), Some(4));
    c.remove((0, 0));
    assert_eq!(c.get((0, 0)), None);
    assert_eq!(c.get((1, 0)), Some(1));
}

fn painted_pixels(data: &[u8]) -> Vec<(usize, usize)> {
    let mut v = Vec::new();
    for p in 0..256 {
        if data[p * 4 + 3] == 160 {
            v.push((p % 16, p / 16));
        }
    }
    v
}

#[test]
fn draw_line_diagonal_and_clipping() {
    let mut data = vec![0u8; 1024];
    draw_line(&mut data, 0, 0, 3, 3);
    assert_eq!(painted_pixels(&data), vec![(0, 0), (1, 1), (2, 2), (3, 3)]);
    assert_eq!(&data[0..4], &[0, 0, 0, 160]);

    let mut data = vec![7u8; 1024];
    draw_line(&mut data, 14, 0, 17, 0);
    assert_eq!(painted_pixels(&data), vec![(14, 0), (15, 0)]);
    assert_eq!(data[16 * 4], 7);
}

#[test]
fn draw_line_steep_reverse() {
    let mut data = vec![0u8; 1024];
    draw_line(&mut data, 2, 5, 1, 1);
    let px = painted_pixels(&data);
    assert!(px.contains(&(2, 5)));
    assert!(px.contains(&(1, 1)));
    assert_eq!(px.len(), 5);
}

#[test]
fn crack_images_grow_with_stage() {
    let s0 = crack_image_data(0);
    let s3 = crack_image_data(3);
    assert_eq!(s0.len(), 1024);
    assert!(painted_pixels(&s3).len() > painted_pixels(&s0).len());
    assert_eq!(crack_image_data(9), s3);
    assert!(painted_pixels(&s0).contains(&(3, 2)));
    assert!(painted_pixels(&s0).contains(&(13, 12)));
}
