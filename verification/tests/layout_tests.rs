use toyoterm::layout::{edge_bar_layout, PaneRect, StatusBarPosition};
use toyoterm::platform::PhysicalSize;

#[test]
fn window_bars_reserve_the_top_and_bottom_edges() {
    let bars = vec![StatusBarPosition::Top, StatusBarPosition::Bottom];
    let (pane, placed) = edge_bar_layout(PhysicalSize::new(960, 600), 54, 24, &bars);
    assert_eq!(pane, PaneRect::new(0, 78, 960, 498));
    assert_eq!(
        placed,
        vec![
            (StatusBarPosition::Top, PaneRect::new(0, 54, 960, 24)),
            (StatusBarPosition::Bottom, PaneRect::new(0, 576, 960, 24)),
        ]
    );
}

#[test]
fn bars_shrink_to_the_space_that_is_left() {
    let (pane, placed) = edge_bar_layout(PhysicalSize::new(100, 60), 54, 24, &vec![StatusBarPosition::Bottom]);
    assert_eq!(pane, PaneRect::new(0, 54, 100, 0));
    assert_eq!(placed, vec![(StatusBarPosition::Bottom, PaneRect::new(0, 54, 100, 6))]);
    let (pane, placed) = edge_bar_layout(PhysicalSize::new(100, 40), 54, 24, &Vec::new());
    assert_eq!(pane, PaneRect::new(0, 40, 100, 0));
    assert!(placed.is_empty());
}
