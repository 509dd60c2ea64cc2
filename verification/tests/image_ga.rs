use photo::array::{Array2, Array3};
use photo::image_ga::ImageGA;

fn numbered(width: usize, height: usize) -> ImageGA {
    let mut image = ImageGA::empty(width, height);
    for y in 0..height {
        for x in 0..width {
            let base = (10 * (y * width + x)) as u8;
            image.set_pixel([x, y], [base, base + 1]);
        }
    }
    image
}

#[test]
fn ga_new_takes_row_major_data() {
    let data = Array3::from_shape_vec((2, 1, 2), vec![1, 2, 3, 4]).unwrap();
    let image = ImageGA::new(data);
    assert_eq!(image.width(), 1);
    assert_eq!(image.height(), 2);
    assert_eq!(image.get_pixel([0, 0]), [1, 2]);
    assert_eq!(image.get_pixel([0, 1]), [3, 4]);
}

#[test]
fn ga_empty_is_black_and_opaque() {
    let image = ImageGA::empty(3, 2);
    assert_eq!(image.width(), 3);
    assert_eq!(image.height(), 2);
    assert_eq!(image.data.dim(), (2, 3, 2));
    for y in 0..2 {
        for x in 0..3 {
            assert_eq!(image.get_pixel([x, y]), [0, 1]);
        }
    }
    assert_eq!(image.data.to_vec(), [0u8, 1].repeat(6));
}

#[test]
fn ga_filled_repeats_the_pixel() {
    let image = ImageGA::filled(2, 3, [7, 8]);
    assert_eq!((image.width(), image.height()), (2, 3));
    assert_eq!(image.data.to_vec(), [7u8, 8].repeat(6));
}

#[test]
fn ga_from_layers_interleaves_the_channels() {
    let gray = Array2::from_shape_vec((1, 3), vec![1, 2, 3]).unwrap();
    let alpha = Array2::from_shape_vec((1, 3), vec![11, 12, 13]).unwrap();
    let image = ImageGA::from_layers([gray.clone(), alpha.clone()]);
    assert_eq!((image.width(), image.height()), (3, 1));
    assert_eq!(image.data.to_vec(), vec![1, 11, 2, 12, 3, 13]);
    assert_eq!(image.get_layer(0), gray);
    assert_eq!(image.get_layer(1), alpha);
}

#[test]
fn ga_coordinates_are_column_then_row() {
    let data = Array3::from_shape_vec((2, 3, 2), (0u8..12).collect()).unwrap();
    let mut image = ImageGA::new(data);
    assert_eq!(image.width(), 3);
    assert_eq!(image.height(), 2);
    assert_eq!(image.get_component([2, 0], 0), 4);
    assert_eq!(image.get_component([0, 1], 1), 7);
    assert_eq!(image.get_pixel([2, 1]), [10, 11]);
    image.set_component([2, 0], 1, 99);
    assert_eq!(image.data.get([0, 2, 1]), Some(99));
    image.set_pixel([1, 1], [50, 51]);
    assert_eq!(image.data.to_vec(), vec![0, 1, 2, 3, 4, 99, 6, 7, 50, 51, 10, 11]);
}

#[test]
fn ga_set_pixel_then_get_pixel_gives_it_back() {
    let before = numbered(3, 2);
    for y in 0..2 {
        for x in 0..3 {
            let mut changed = before.clone();
            changed.set_pixel([x, y], [201, 202]);
            assert_eq!(changed.get_pixel([x, y]), [201, 202]);
        }
    }
}

#[test]
fn ga_transforms_move_the_pixels() {
    let before = numbered(3, 2);
    let mut image = before.clone();
    image.transpose();
    assert_eq!((image.width(), image.height()), (2, 3));
    assert_eq!(image.get_pixel([1, 2]), before.get_pixel([2, 1]));
    let mut image = before.clone();
    image.flip_vertical();
    assert_eq!(image.get_pixel([0, 0]), before.get_pixel([0, 1]));
    let mut image = before.clone();
    image.flip_horizontal();
    assert_eq!(image.get_pixel([0, 0]), before.get_pixel([2, 0]));
    let mut image = before.clone();
    image.rotate_clockwise();
    assert_eq!((image.width(), image.height()), (2, 3));
    assert_eq!(image.get_pixel([1, 0]), before.get_pixel([0, 0]));
    let mut image = before.clone();
    image.rotate_anticlockwise();
    assert_eq!(image.get_pixel([0, 2]), before.get_pixel([0, 0]));
    let mut image = before.clone();
    image.rotate_180();
    assert_eq!(image.get_pixel([0, 0]), before.get_pixel([2, 1]));
}

#[test]
fn ga_transforms_undo_each_other() {
    let before = numbered(3, 2);
    let mut image = before.clone();
    image.flip_vertical();
    image.flip_vertical();
    assert_eq!(image, before);
    image.flip_horizontal();
    image.flip_horizontal();
    assert_eq!(image, before);
    image.transpose();
    image.transpose();
    assert_eq!(image, before);
    image.rotate_clockwise();
    image.rotate_anticlockwise();
    assert_eq!(image, before);
    for _ in 0..4 {
        image.rotate_clockwise();
    }
    assert_eq!(image, before);
    let mut turned = before.clone();
    turned.rotate_180();
    image.flip_horizontal();
    image.flip_vertical();
    assert_eq!(image, turned);
}

#[test]
fn ga_extract_and_views_read_a_window() {
    let mut image = numbered(4, 3);
    let before = image.clone();
    let part = image.extract([2, 1], [2, 2]);
    assert_eq!((part.width(), part.height()), (2, 2));
    for j in 0..2 {
        for i in 0..2 {
            assert_eq!(part.get_pixel([i, j]), before.get_pixel([2 + i, 1 + j]));
        }
    }
    {
        let seen = image.view([2, 1], [2, 2]);
        assert_eq!(seen.dim(), (2, 2, 2));
        assert_eq!(seen.get([1, 0, 1]), Some(before.get_component([2, 2], 1)));
    }
    {
        let mut written = image.view_mut([2, 1], [2, 2]);
        assert!(written.set([1, 1, 0], 123));
    }
    assert_eq!(image.get_component([3, 2], 0), 123);
    assert_eq!(image.get_component([3, 2], 1), before.get_component([3, 2], 1));
    assert_eq!(image.get_pixel([0, 0]), before.get_pixel([0, 0]));
}

#[test]
fn ga_tiles_cover_the_image() {
    let mut image = numbered(4, 2);
    let before = image.clone();
    let grid = image.tiles([2, 2]);
    assert_eq!(grid.dim(), (1, 2));
    assert_eq!(grid.get([0, 0]), Some(&before.extract([0, 0], [2, 2]).data));
    assert_eq!(grid.get([0, 1]), Some(&before.extract([2, 0], [2, 2]).data));
    assert_eq!(image.extract_tile([2, 2], [1, 0]), before.extract([2, 0], [2, 2]));
    {
        let seen = image.view_tile([2, 2], [1, 0]);
        assert_eq!(seen.get([1, 1, 0]), Some(before.get_component([3, 1], 0)));
    }
    {
        let mut written = image.view_tile_mut([2, 2], [1, 0]);
        assert!(written.set([0, 0, 1], 42));
    }
    assert_eq!(image.get_component([2, 0], 1), 42);
}

#[test]
fn ga_unique_tiles_of_an_empty_image_is_one_tile() {
    let image = ImageGA::empty(4, 4);
    let grid = image.tiles([2, 2]);
    assert_eq!(grid.dim(), (2, 2));
    let groups = image.unique_tiles([2, 2]);
    assert_eq!(groups.len(), 1);
    assert_eq!(groups[0].1, 4);
    assert_eq!(groups[0].0, ImageGA::empty(2, 2));
}

#[test]
fn ga_unique_tiles_keeps_the_order_of_first_occurrence() {
    let mut image = ImageGA::empty(4, 2);
    image.set_pixel([3, 0], [9, 9]);
    image.set_pixel([1, 1], [9, 9]);
    let groups = image.unique_tiles([1, 1]);
    assert_eq!(groups.len(), 2);
    assert_eq!(groups[0].0.get_pixel([0, 0]), [0, 1]);
    assert_eq!(groups[0].1, 6);
    assert_eq!(groups[1].0.get_pixel([0, 0]), [9, 9]);
    assert_eq!(groups[1].1, 2);
}
