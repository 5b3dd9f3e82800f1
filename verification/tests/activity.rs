use sharpr::activity::{busy_icon_candidates, idle_icon_candidates, resolve_icon_name, BackgroundOps, OpsIndicator, FINISHED_ROW_LIFETIME_MS};

#[test]
fn background_operations_list() {
    let mut ops = BackgroundOps::new();
    assert_eq!(ops.status_text(), "No background activity");
    assert!(!ops.list_visible());
    ops.push_background_op(1, "Indexing");
    ops.push_background_op(2, "Thumbnails");
    ops.push_background_op(1, "Again");
    assert_eq!(ops.ops.len(), 2);
    assert_eq!(ops.ops[0].title, "Indexing");
    assert_eq!(ops.ops[0].status, "Running");
    assert!(ops.ops[0].progress_visible);
    assert_eq!(ops.status_text(), "2 background tasks running");
    ops.complete_background_op(1);
    assert_eq!(ops.ops[0].status, "Done");
    assert_eq!(ops.ops[0].status_class, Some("dim-label"));
    assert!(!ops.ops[0].progress_visible && !ops.ops[0].active);
    assert_eq!(ops.status_text(), "1 background task running");
    ops.fail_background_op(2, "disk full");
    assert_eq!(ops.ops[1].status, "Failed: disk full");
    assert_eq!(ops.ops[1].status_class, Some("error"));
    assert_eq!(ops.active_count, 0);
    ops.complete_background_op(2);
    assert_eq!(ops.active_count, 0);
    ops.remove_background_op(1);
    ops.remove_background_op(9);
    assert_eq!(ops.ops.len(), 1);
    assert_eq!(ops.ops[0].id, 2);
    assert!(ops.list_visible());
}

#[test]
fn pushing_then_removing_restores_the_list() {
    let mut ops = BackgroundOps::new();
    ops.push_background_op(5, "Export");
    let before: Vec<u64> = ops.ops.iter().map(|o| o.id).collect();
    let active_before = ops.active_count;
    ops.push_background_op(6, "Upscale");
    ops.remove_background_op(6);
    let after: Vec<u64> = ops.ops.iter().map(|o| o.id).collect();
    assert_eq!(before, after);
    assert_eq!(ops.active_count, active_before);
}

#[test]
fn header_indicator() {
    let mut ind = OpsIndicator::new("idle-icon".into(), "busy-icon".into());
    assert!(!ind.is_busy());
    assert_eq!(ind.icon(), ("idle-icon", false));
    ind.push_op(3, "Scan");
    assert!(ind.is_busy());
    assert_eq!(ind.icon(), ("busy-icon", true));
    ind.complete_op(3);
    assert!(!ind.is_busy());
    ind.set_pipeline_active(true);
    assert!(ind.is_busy());
    ind.push_op(4, "Scan");
    ind.fail_op(4, "oops");
    ind.set_pipeline_active(false);
    assert!(!ind.is_busy());
    ind.push_op(5, "x");
    ind.remove_op(5);
    assert!(!ind.is_busy());
}

#[test]
fn icon_names() {
    let idle = idle_icon_candidates();
    assert_eq!(resolve_icon_name(&idle, &[false, true, true]), "circle-outline-symbolic");
    assert_eq!(resolve_icon_name(&idle, &[false, false, false]), "circle-outline-thick-symbolic");
    let busy = busy_icon_candidates();
    assert_eq!(resolve_icon_name(&busy, &[true, false, false]), "spinner-symbolic");
    assert_eq!(resolve_icon_name(&[], &[]), "emblem-system-symbolic");
}

#[test]
fn finished_rows_stay_three_seconds() {
    assert_eq!(FINISHED_ROW_LIFETIME_MS, 3000);
}

#[test]
fn indicator_ids_form_a_set_over_calls() {
    let mut ind = OpsIndicator::new("idle".to_string(), "busy".to_string());
    ind.push_op(1, "a");
    ind.push_op(1, "a");
    ind.complete_op(1);
    assert_eq!(ind.icon(), ("idle", false));
    ind.push_op(2, "b");
    ind.set_pipeline_active(true);
    ind.remove_op(2);
    assert_eq!(ind.icon(), ("busy", true));
    ind.set_pipeline_active(false);
    assert_eq!(ind.icon(), ("idle", false));
}

#[test]
fn background_rows_over_calls() {
    let mut ops = BackgroundOps::new();
    ops.push_background_op(1, "Upscaling");
    ops.push_background_op(1, "Again");
    assert_eq!(ops.status_text(), "1 background task running");
    ops.complete_background_op(1);
    ops.complete_background_op(1);
    assert_eq!(ops.status_text(), "No background activity");
    // A push of a listed, finished id changes nothing.
    ops.push_background_op(1, "Again");
    assert_eq!(ops.status_text(), "No background activity");
    ops.remove_background_op(1);
    ops.push_background_op(1, "Again");
    assert_eq!(ops.status_text(), "1 background task running");
}
