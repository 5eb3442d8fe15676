use compositor::{column_estimate as integer_estimate, Grid, Layout, Position, Size, Speaker, View};

/// `⌊√visibles + 0.9⌋`, as the grid layout estimates its columns.
fn column_estimate(visibles: usize) -> usize {
    ((visibles as f64).sqrt() + 0.9) as usize
}

/// `length` scaled down by the aspect ratio of `resolution`.
fn by_ratio(length: usize, resolution: Size) -> usize {
    (length as f64 / (resolution.width as f64 / resolution.height as f64)) as usize
}

/// `length` scaled up by the aspect ratio of `resolution`.
fn times_ratio(length: usize, resolution: Size) -> usize {
    (length as f64 * (resolution.width as f64 / resolution.height as f64)) as usize
}

fn grid_view(grid: &Grid, n: usize) -> View {
    let c = column_estimate(grid.amount_of_visibles());
    let height = by_ratio(grid.width(c), grid.current_resolution());
    grid.calculate_stream_view(n, c, height).unwrap()
}

#[test]
fn size_text() {
    assert_eq!(Size::fhd().to_string(), "1920x1080");
    assert_eq!(Size::new(0, 7).to_string(), "0x7");
}

#[test]
fn size_presets() {
    assert_eq!(Size::sd(), Size { width: 640, height: 480 });
    assert_eq!(Size::hd(), Size { width: 1280, height: 720 });
    assert_eq!(Size::fhd(), Size { width: 1920, height: 1080 });
    assert_eq!(Size::qhd(), Size { width: 2560, height: 1440 });
    assert_eq!(Size::uhd(), Size { width: 3840, height: 2160 });
    assert_eq!(Size::full_ultra_hd(), Size { width: 7680, height: 4320 });
    assert_eq!(Size::default(), Size::new(0, 0));
    assert_eq!(Position::default(), Position { x: 0, y: 0 });
}

#[test]
fn grid_shapes() {
    let shape = |v: usize| Grid::new(Size::fhd(), v).grid(column_estimate(v));
    assert_eq!(shape(0), (1, 1));
    assert_eq!(shape(1), (1, 1));
    assert_eq!(shape(2), (2, 1));
    assert_eq!(shape(3), (2, 2));
    assert_eq!(shape(5), (3, 2));
    assert_eq!(shape(7), (3, 3));
    // more rows than columns: one column more instead
    assert_eq!(shape(26), (6, 5));
}

#[test]
fn grid_of_five_on_full_hd() {
    let grid = Grid::new(Size::fhd(), 5);
    let c = column_estimate(5);
    assert_eq!(grid.columns(c), 3);
    assert_eq!(grid.rows(c), 2);
    assert_eq!(grid.width(c), 640);
    assert_eq!(grid.padding(c, 360), 180);
    assert_eq!(grid.uni_size(c, 360), Size { width: 640, height: 360 });
    assert_eq!(grid.height(360), 360);
    assert_eq!(grid_view(&grid, 0), View { pos: Position { x: 0, y: 180 }, size: Size { width: 640, height: 360 } });
    assert_eq!(grid_view(&grid, 4), View { pos: Position { x: 640, y: 540 }, size: Size { width: 640, height: 360 } });
    // streams beyond the visibles get no view
    let c = column_estimate(5);
    assert_eq!(grid.calculate_stream_view(5, c, 360), None);
    assert_eq!(grid.calculate_stream_view(6, c, 360), None);
}

#[test]
fn hidden_grid_positions_get_no_view() {
    let mut grid = Grid::default();
    grid.set_resolution_changed(Size::hd());
    grid.set_amount_of_visibles(2);
    let c = column_estimate(2);
    let height = by_ratio(grid.width(c), grid.current_resolution());
    assert!(grid.calculate_stream_view(1, c, height).is_some());
    assert_eq!(grid.calculate_stream_view(2, c, height), None);
    let empty = Grid::new(Size::hd(), 0);
    assert_eq!(empty.calculate_stream_view(0, 1, 720), None);
}

#[test]
fn grid_cells_fit_and_do_not_overlap() {
    for visibles in 1..30 {
        let grid = Grid::new(Size::hd(), visibles);
        let views: Vec<View> = (0..visibles).map(|n| grid_view(&grid, n)).collect();
        for (i, a) in views.iter().enumerate() {
            assert!(a.pos.x >= 0 && a.pos.x as usize + a.size.width <= 1280);
            assert!(a.pos.y >= 0 && a.pos.y as usize + a.size.height <= 720);
            for b in &views[i + 1..] {
                let apart_x = a.pos.x + a.size.width as i64 <= b.pos.x || b.pos.x + b.size.width as i64 <= a.pos.x;
                let apart_y = a.pos.y + a.size.height as i64 <= b.pos.y || b.pos.y + b.size.height as i64 <= a.pos.y;
                assert!(apart_x || apart_y);
            }
        }
    }
}

#[test]
fn grid_setters() {
    let mut grid = Grid::default();
    grid.set_resolution_changed(Size::sd());
    grid.set_amount_of_visibles(4);
    assert_eq!(grid.current_resolution(), Size::sd());
    assert_eq!(grid.amount_of_visibles(), 4);
}

fn speaker_view(speaker: &Speaker, n: usize) -> Option<View> {
    let resolution = speaker.current_resolution();
    let viewers_height = by_ratio(speaker.viewers_width(), resolution);
    let speaker_width = times_ratio(speaker.speaker_height(viewers_height), resolution);
    speaker.calculate_stream_view(n, viewers_height, speaker_width)
}

#[test]
fn speaker_with_viewers_on_full_hd() {
    let speaker = Speaker::new(Size::fhd(), 6);
    assert_eq!(speaker.viewers_width(), 480);
    assert_eq!(speaker.speaker_height(270), 810);
    assert_eq!(
        speaker_view(&speaker, 0),
        Some(View { pos: Position { x: 0, y: 0 }, size: Size { width: 1440, height: 810 } })
    );
    assert_eq!(
        speaker_view(&speaker, 2),
        Some(View { pos: Position { x: 1440, y: 270 }, size: Size { width: 480, height: 270 } })
    );
    // the fifth viewer goes below the speaker, right to left
    assert_eq!(
        speaker_view(&speaker, 5),
        Some(View { pos: Position { x: 960, y: 810 }, size: Size { width: 480, height: 270 } })
    );
    assert_eq!(speaker_view(&speaker, 6), None);
}

#[test]
fn speaker_with_one_viewer() {
    let speaker = Speaker::new(Size::fhd(), 2);
    assert_eq!(
        speaker_view(&speaker, 0),
        Some(View { pos: Position { x: 0, y: 270 }, size: Size { width: 960, height: 540 } })
    );
    assert_eq!(
        speaker_view(&speaker, 1),
        Some(View { pos: Position { x: 960, y: 270 }, size: Size { width: 960, height: 540 } })
    );
}

#[test]
fn speaker_alone_fills_the_picture() {
    let mut speaker = Speaker::default();
    speaker.set_resolution_changed(Size::hd());
    speaker.set_amount_of_visibles(1);
    assert_eq!(speaker.viewers_width(), 0);
    assert_eq!(
        speaker_view(&speaker, 0),
        Some(View { pos: Position { x: 0, y: 0 }, size: Size { width: 1280, height: 720 } })
    );
    assert_eq!(speaker.viewers_size(0), Size { width: 640, height: 360 });
    assert_eq!(speaker_view(&speaker, 1), None);
    speaker.set_amount_of_visibles(0);
    assert_eq!(speaker_view(&speaker, 0), None);
}

#[test]
fn vertical_speaker_layout() {
    let resolution = Size::sd();
    let n = 3;
    let viewers_height = Layout::vertical_viewers_height(&resolution, n);
    assert_eq!(viewers_height, 160);
    let viewers_width = times_ratio(viewers_height, resolution);
    let speaker_width = times_ratio(resolution.height - viewers_height, resolution);
    let layout = Layout::new_speaker_vertical(&resolution, n, viewers_width, speaker_width);
    assert_eq!(layout.num_viewers(), 3);
    assert!(!layout.no_viewers());
    assert_eq!(layout.viewers_positions[2], Position { x: 426, y: 320 });
    assert_eq!(layout.viewers_size, Size { width: 213, height: 160 });
    assert_eq!(layout.speaker_position, Position { x: 0, y: 160 });
    assert_eq!(layout.speaker_size, Size { width: 426, height: 320 });
    assert_eq!(layout.speaking_alignment.vertical, "center");
    assert_eq!(layout.speaking_position, Position { x: 0, y: -160 });
    assert_eq!(layout.clock_position, Position { x: -213, y: -320 });
    assert_eq!((layout.title_alignment.horizontal, layout.title_alignment.vertical), ("left", "top"));
    assert_eq!((layout.clock_alignment.horizontal, layout.clock_alignment.vertical), ("right", "bottom"));
}

#[test]
fn vertical_speaker_layout_with_one_or_no_viewer() {
    let resolution = Size::sd();
    let one = Layout::new_speaker_vertical(&resolution, 1, 0, 0);
    assert_eq!(one.viewers_positions, vec![Position { x: 320, y: 120 }]);
    assert_eq!(one.speaker_position, Position { x: 0, y: 120 });
    assert_eq!(one.speaker_size, Size { width: 320, height: 240 });
    assert_eq!(one.speaking_alignment.vertical, "bottom");
    let none = Layout::new_speaker_vertical(&resolution, 0, 0, 640);
    assert!(none.no_viewers());
    assert_eq!(none.num_viewers(), 0);
    assert_eq!(none.clock_position, Position { x: 0, y: 0 });
    assert_eq!(none.speaker_size, Size { width: 640, height: 480 });
}

#[test]
fn grids_are_compact() {
    for visibles in 2..200usize {
        let c = column_estimate(visibles);
        // the estimate is ⌊√visibles + 0.9⌋ in integers
        assert!((10 * c - 9) * (10 * c - 9) <= 100 * visibles);
        assert!(100 * visibles < (10 * c + 1) * (10 * c + 1));
        let grid = Grid::new(Size::fhd(), visibles);
        let (columns, rows) = grid.grid(c);
        assert!(1 <= rows && rows <= columns);
        assert!(columns * rows >= visibles);
        assert!(columns * (rows - 1) < visibles);
    }
}

#[test]
fn speaker_viewers_do_not_overlap() {
    for visibles in 3..12usize {
        let speaker = Speaker::new(Size::fhd(), visibles);
        let views: Vec<View> = (1..visibles).map(|n| speaker_view(&speaker, n).unwrap()).collect();
        for (i, a) in views.iter().enumerate() {
            for b in &views[i + 1..] {
                let apart_x = a.pos.x + a.size.width as i64 <= b.pos.x || b.pos.x + b.size.width as i64 <= a.pos.x;
                let apart_y = a.pos.y + a.size.height as i64 <= b.pos.y || b.pos.y + b.size.height as i64 <= a.pos.y;
                assert!(apart_x || apart_y);
            }
        }
    }
}

#[test]
fn integer_column_estimate_agrees_with_floating_point() {
    assert_eq!(integer_estimate(0), 0);
    for visibles in 1..100_000usize {
        assert_eq!(integer_estimate(visibles), column_estimate(visibles), "{visibles}");
    }
    assert_eq!(integer_estimate(usize::MAX), column_estimate(usize::MAX));
}
