use alloy_transport_balancer::chart::{mean_calls, most_calls, ChartFrame, GRID_STEPS};

#[test]
fn throughput_frame_layout() {
    let frame = ChartFrame::throughput();
    assert_eq!((frame.width, frame.height), (800, 480));
    assert_eq!(frame.plot_width(), 680);
    assert_eq!(frame.plot_height(), 330);
    assert_eq!(frame.plot_right(), 760);
    assert_eq!(frame.plot_bottom(), 410);
    assert_eq!(frame.title_x(), 400);
    assert_eq!(frame.axis_x(), 420);
    assert_eq!(frame.axis_y(), 245);
    assert_eq!(frame.legend_x(), 570);
    let lines: Vec<i32> = (0..=GRID_STEPS).map(|step| frame.gridline_y(step)).collect();
    assert_eq!(lines, vec![410, 344, 278, 212, 146, 80]);
}

#[test]
fn calls_frame_layout() {
    let frame = ChartFrame::calls();
    assert_eq!((frame.width, frame.height), (800, 430));
    assert_eq!(frame.plot_height(), 300);
    assert_eq!(frame.legend_x(), 560);
    assert_eq!(frame.gridline_y(0), 360);
    assert_eq!(frame.gridline_y(GRID_STEPS), 60);
}

#[test]
fn calls_are_averaged_and_scaled() {
    assert_eq!(mean_calls(&vec![10, 11, 11]), 10);
    assert_eq!(mean_calls(&vec![7]), 7);
    assert_eq!(most_calls(&vec![3, 9, 4]), 9);
    assert_eq!(most_calls(&vec![0]), 0);
    assert_eq!(most_calls(&vec![]), 1);
}
