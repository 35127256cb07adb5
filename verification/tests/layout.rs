use wldash::app::App;
use wldash::geometry::{
    content_area, is_countable, is_drawable, pool_bytes, subdimensions,
};
use wldash::layout::{layout, window_size, Available};
use wldash::module::{Module, ModuleKind};

fn available(bits: u32) -> Available {
    Available {
        launcher: bits & 1 != 0,
        battery: bits & 2 != 0,
        backlight: bits & 4 != 0,
        sound: bits & 8 != 0,
    }
}

#[test]
fn full_layout_has_every_panel_in_place() {
    let modules = layout(available(15));
    let expected = vec![
        Module::new(ModuleKind::Clock, (0, 0, 536, 320)),
        Module::new(ModuleKind::Calendar, (0, 368, 1232, 344)),
        Module::new(ModuleKind::Launcher, (0, 728, 1232, 32)),
        Module::new(ModuleKind::Battery, (640, 0, 592, 32)),
        Module::new(ModuleKind::Backlight, (640, 32, 592, 32)),
        Module::new(ModuleKind::Sound, (640, 64, 592, 32)),
    ];
    assert_eq!(modules, expected);
}

#[test]
fn rows_close_up_where_a_panel_is_missing() {
    let modules = layout(available(8));
    assert_eq!(modules.len(), 3);
    assert_eq!(modules[2], Module::new(ModuleKind::Sound, (640, 0, 592, 32)));

    let modules = layout(available(12));
    assert_eq!(modules[2].get_bounds(), (640, 0, 592, 32));
    assert_eq!(modules[3].get_bounds(), (640, 32, 592, 32));

    let modules = layout(available(10));
    assert_eq!(modules[2].kind, ModuleKind::Battery);
    assert_eq!(modules[3], Module::new(ModuleKind::Sound, (640, 32, 592, 32)));
}

#[test]
fn window_size_depends_on_the_launcher_alone() {
    for bits in 0..16u32 {
        let a = available(bits);
        let size = window_size(&layout(a));
        assert_eq!(size, (1272, if a.launcher { 800 } else { 752 }));
        assert!(is_drawable(size));
    }
}

#[test]
fn window_of_no_panels_is_all_margin() {
    assert_eq!(window_size(&vec![]), (40, 40));
}

#[test]
fn window_size_takes_the_widest_and_the_lowest_panel() {
    let modules = vec![
        Module::new(ModuleKind::Clock, (5, 100, 10, 1)),
        Module::new(ModuleKind::Sound, (3, 7, 200, 9)),
    ];
    assert_eq!(window_size(&modules), (243, 141));
}

#[test]
fn panels_fit_and_do_not_overlap() {
    for bits in 0..16u32 {
        let modules = layout(available(bits));
        let area = content_area(window_size(&modules));
        for (i, a) in modules.iter().enumerate() {
            assert!(subdimensions(area, a.get_bounds()).is_some());
            for b in modules.iter().skip(i + 1) {
                let (p, q) = (a.get_bounds(), b.get_bounds());
                assert!(
                    p.0 + p.2 <= q.0
                        || q.0 + q.2 <= p.0
                        || p.1 + p.3 <= q.1
                        || q.1 + q.3 <= p.1
                );
                assert_ne!(a.kind, b.kind);
            }
        }
    }
}

#[test]
fn a_panel_owns_its_first_but_not_its_end_pixel() {
    let m = Module::new(ModuleKind::Battery, (640, 32, 592, 32));
    assert!(m.intersect((640, 32)));
    assert!(m.intersect((1231, 63)));
    assert!(!m.intersect((1232, 63)));
    assert!(!m.intersect((1231, 64)));
    assert!(!m.intersect((639, 32)));
    assert!(!m.intersect((640, 31)));
}

#[test]
fn a_panel_at_the_end_of_the_range_is_tested_without_overflow() {
    let m = Module::new(ModuleKind::Clock, (u32::MAX, u32::MAX, 7, 7));
    assert!(m.intersect((u32::MAX, u32::MAX)));
    assert!(!m.intersect((0, 0)));
    let empty = Module::new(ModuleKind::Clock, (4, 4, 0, 9));
    assert!(!empty.intersect((4, 4)));
}

#[test]
fn part_of_an_area_is_counted_from_outside() {
    assert_eq!(subdimensions((20, 20, 100, 50), (10, 5, 90, 45)), Some((30, 25, 90, 45)));
    assert_eq!(subdimensions((20, 20, 100, 50), (10, 5, 91, 45)), None);
    assert_eq!(subdimensions((20, 20, 100, 50), (10, 5, 90, 46)), None);
    assert_eq!(subdimensions((0, 0, 9, 9), (u32::MAX, 0, 2, 1)), None);
}

#[test]
fn bytes_of_a_window() {
    assert_eq!(pool_bytes((1272, 800)), 4_070_400);
    assert_eq!(pool_bytes((0, 0)), 0);
    assert!(is_countable((32768, 32767)));
    assert!(!is_countable((32768, 32768)));
    assert!(!is_countable((1 << 30, 0)));
    assert!(!is_drawable((39, 800)));
    assert!(!is_drawable((800, 39)));
    assert!(is_drawable((40, 40)));
    assert_eq!(content_area((1272, 800)), (20, 20, 1232, 760));
}

#[test]
fn a_pixel_finds_its_panel() {
    let mut app = App::new();
    assert_eq!(app.get_module((0, 0)), None);
    app.set_modules(available(15));
    assert_eq!(app.get_module((0, 0)), Some(0));
    assert_eq!(app.get_module((535, 319)), Some(0));
    assert_eq!(app.get_module((536, 319)), None);
    assert_eq!(app.get_module((0, 368)), Some(1));
    assert_eq!(app.get_module((640, 33)), Some(4));
    assert_eq!(app.get_module((0, 712)), None);
    assert_eq!(app.get_module((1231, 759)), Some(2));
}

#[test]
fn the_first_of_two_panels_on_a_pixel_is_found() {
    let mut app = App::new();
    app.modules = vec![
        Module::new(ModuleKind::Clock, (50, 0, 10, 10)),
        Module::new(ModuleKind::Sound, (0, 0, 60, 10)),
        Module::new(ModuleKind::Battery, (0, 0, 60, 10)),
    ];
    assert_eq!(app.get_module((55, 5)), Some(0));
    assert_eq!(app.get_module((5, 5)), Some(1));
}
