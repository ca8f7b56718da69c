use localpipeline::picker::dir_display;
use localpipeline::picker::picker_rect;
use localpipeline::picker::PickerRect;

#[test]
fn picker_is_centered_and_capped_at_sixty() {
    let area = PickerRect { x: 0, y: 0, width: 120, height: 40 };
    let r = picker_rect(area);
    assert_eq!(r.width, 60);
    assert_eq!(r.height, 36);
    assert_eq!(r.x, 30);
    assert_eq!(r.y, 2);
}

#[test]
fn picker_shrinks_on_narrow_screens() {
    let area = PickerRect { x: 5, y: 3, width: 30, height: 10 };
    let r = picker_rect(area);
    assert_eq!(r.width, 26);
    assert_eq!(r.height, 6);
    assert_eq!(r.x, 7);
    assert_eq!(r.y, 5);
    let tiny = picker_rect(PickerRect { x: 0, y: 0, width: 3, height: 2 });
    assert_eq!(tiny.width, 0);
    assert_eq!(tiny.height, 0);
}

#[test]
fn directory_line_fits_or_is_left_truncated() {
    assert_eq!(dir_display("/proj/a", 60), "/proj/a");
    let long = "/Users/pim/fm/workflow/some/deeply/nested/project/directory";
    let shown = dir_display(long, 20);
    assert_eq!(shown.chars().count(), 16);
    assert!(shown.starts_with("..."));
    assert!(shown.ends_with("ctory"));
    assert_eq!(dir_display(long, 7), long);
}
