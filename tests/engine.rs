use row_dispatch::report::{red_level, should_report_progress};
use row_dispatch::{
    compute_row, run, Cell, CompletionWatermark, DispatchAction, DispatchError, Dispatcher,
    WorkerEvent,
};

fn pattern(x: usize, y: usize) -> Cell {
    if (x + y) % 3 == 0 {
        None
    } else {
        Some((x * 7 + y) as u64 + 1)
    }
}

#[test]
fn empty_grid_gives_empty_field() {
    let field = run(4, 0, &|_x: usize, _y: usize| Some(1)).unwrap();
    assert!(field.is_empty());
}

#[test]
fn empty_grid_is_done_at_once_and_stops_every_worker() {
    let mut d = Dispatcher::new(3, 0).unwrap();
    assert!(d.is_done());
    for w in 0..3 {
        assert_eq!(d.dispatch(w), DispatchAction::Terminate);
        assert!(!d.is_active(w));
    }
    assert_eq!(d.rows_dispatched(), 0);
    assert!(d.into_field().is_empty());
}

#[test]
fn one_row_five_workers_uses_one_worker() {
    let mut d = Dispatcher::new(5, 1).unwrap();
    assert_eq!(d.dispatch(0), DispatchAction::Assign(0));
    for w in 1..5 {
        assert_eq!(d.dispatch(w), DispatchAction::Terminate);
        assert!(!d.is_active(w));
    }
    assert_eq!(d.dispatch(0), DispatchAction::Wait);
    let row = compute_row(&|_x: usize, _y: usize| Some(3), 1, 0);
    assert_eq!(d.handle_event(0, WorkerEvent::RowDone(row)), Ok(Some(0)));
    assert!(d.is_done());
    assert_eq!(d.dispatch(0), DispatchAction::Terminate);
    assert_eq!(d.into_field(), vec![vec![Some(3)]]);
}

#[test]
fn one_row_five_workers_run() {
    let field = run(5, 1, &|_x: usize, _y: usize| Some(9)).unwrap();
    assert_eq!(field, vec![vec![Some(9)]]);
}

#[test]
fn four_by_four_all_ones() {
    let field = run(2, 4, &|_x: usize, _y: usize| Some(1)).unwrap();
    assert_eq!(field.len(), 4);
    for row in &field {
        assert_eq!(row, &vec![Some(1); 4]);
    }
}

#[test]
fn never_diverging_cells_give_background_field() {
    let field = run(3, 5, &|_x: usize, _y: usize| None).unwrap();
    assert_eq!(field, vec![vec![None; 5]; 5]);
}

#[test]
fn zero_workers_is_invalid() {
    assert_eq!(
        run(0, 4, &|_x: usize, _y: usize| Some(1)),
        Err(DispatchError::InvalidConfiguration)
    );
    assert!(matches!(
        Dispatcher::new(0, 4),
        Err(DispatchError::InvalidConfiguration)
    ));
}

#[test]
fn disconnected_worker_is_fatal() {
    let mut d = Dispatcher::new(2, 3).unwrap();
    assert_eq!(d.dispatch(0), DispatchAction::Assign(0));
    assert_eq!(d.dispatch(1), DispatchAction::Assign(1));
    assert_eq!(
        d.handle_event(1, WorkerEvent::Disconnected),
        Err(DispatchError::WorkerDisconnected)
    );
    assert_eq!(d.watermark(), 0);
    assert!(!d.is_done());
}

#[test]
fn pending_poll_changes_nothing() {
    let mut d = Dispatcher::new(1, 2).unwrap();
    assert_eq!(d.dispatch(0), DispatchAction::Assign(0));
    assert_eq!(d.handle_event(0, WorkerEvent::Pending), Ok(None));
    assert_eq!(d.assignment(0), Some(0));
    assert_eq!(d.watermark(), 0);
}

#[test]
fn field_is_independent_of_worker_count() {
    let one = run(1, 7, &pattern).unwrap();
    for k in 2..6 {
        assert_eq!(run(k, 7, &pattern).unwrap(), one);
    }
    for y in 0..7 {
        for x in 0..7 {
            assert_eq!(one[y][x], pattern(x, y));
        }
    }
}

#[test]
fn watermark_trails_out_of_order_completion() {
    let n = 3;
    let mut d = Dispatcher::new(2, n).unwrap();
    assert_eq!(d.dispatch(0), DispatchAction::Assign(0));
    assert_eq!(d.dispatch(1), DispatchAction::Assign(1));
    let row1 = compute_row(&pattern, n, 1);
    assert_eq!(d.handle_event(1, WorkerEvent::RowDone(row1)), Ok(Some(1)));
    assert_eq!(d.watermark(), 0);
    assert_eq!(d.prefix_row(0), None);
    assert_eq!(d.prefix_row(1), None);
    assert_eq!(d.dispatch(1), DispatchAction::Assign(2));
    let row0 = compute_row(&pattern, n, 0);
    assert_eq!(d.handle_event(0, WorkerEvent::RowDone(row0)), Ok(Some(0)));
    assert_eq!(d.watermark(), 2);
    assert_eq!(d.prefix_row(1), Some(&compute_row(&pattern, n, 1)));
    assert_eq!(d.prefix_row(2), None);
    assert_eq!(d.dispatch(0), DispatchAction::Terminate);
    let row2 = compute_row(&pattern, n, 2);
    assert_eq!(d.handle_event(1, WorkerEvent::RowDone(row2)), Ok(Some(2)));
    assert_eq!(d.watermark(), 3);
    assert!(d.is_done());
}

#[test]
fn cell_function_is_idempotent_over_a_row() {
    let first = compute_row(&pattern, 6, 4);
    let second = compute_row(&pattern, 6, 4);
    assert_eq!(first, second);
    assert_eq!(first, vec![Some(5), Some(12), None, Some(26), Some(33), None]);
}

#[test]
fn watermark_collapses_contiguous_runs() {
    let mut w = CompletionWatermark::new();
    assert_eq!(w.watermark(), 0);
    w.mark_complete(2);
    assert_eq!(w.watermark(), 0);
    w.mark_complete(0);
    assert_eq!(w.watermark(), 1);
    w.mark_complete(1);
    assert_eq!(w.watermark(), 3);
    w.mark_complete(3);
    assert_eq!(w.watermark(), 4);
}

#[test]
fn progress_reports_every_hundredth() {
    assert!(should_report_progress(100, 10_000));
    assert!(should_report_progress(200, 10_000));
    assert!(!should_report_progress(150, 10_000));
    assert!(!should_report_progress(0, 50));
    assert!(!should_report_progress(10, 99));
    assert!(should_report_progress(0, 100));
}

#[test]
fn red_level_scales_and_wraps() {
    assert_eq!(red_level(1), 0);
    assert_eq!(red_level(2), 32);
    assert_eq!(red_level(8), 224);
    assert_eq!(red_level(9), 1);
    assert_eq!(red_level(499), 126);
}
