use sweeper::{month_bucket, next_apply_step, ApplyStep, ArchivePlan, PlanStep, ProjectItem, StepFailure};

fn item(p: &str) -> ProjectItem {
    ProjectItem { path: p.to_string(), last_modified: 0 }
}

fn plan() -> ArchivePlan {
    ArchivePlan::new("/arch".to_string(), "2026-02".to_string())
}

#[test]
fn destination_equal_to_root_plans_nothing() {
    let mut p = ArchivePlan::new("/r".to_string(), "2026-02".to_string());
    assert_eq!(p.plan_item(&item("/r/A"), &vec![]), PlanStep::Skipped);
    assert_eq!(p.plan_item(&item("/r/B"), &vec![false]), PlanStep::Skipped);
    assert!(p.moves.is_empty());
}

#[test]
fn existing_destination_gets_counter() {
    let mut p = plan();
    assert_eq!(p.plan_item(&item("/r/A"), &vec![]), PlanStep::Probe("/arch/2026-02/A".to_string()));
    assert_eq!(p.plan_item(&item("/r/A"), &vec![true]), PlanStep::Probe("/arch/2026-02/A_1".to_string()));
    assert_eq!(p.plan_item(&item("/r/A"), &vec![true, false]), PlanStep::Added);
    assert_eq!(p.moves.len(), 1);
    assert_eq!(p.moves[0].from, "/r/A");
    assert_eq!(p.moves[0].to, "/arch/2026-02/A_1");
}

#[test]
fn planned_targets_are_never_shared() {
    let mut p = plan();
    assert_eq!(p.plan_item(&item("/r/A"), &vec![false]), PlanStep::Added);
    assert_eq!(p.plan_item(&item("/s/A"), &vec![false, false]), PlanStep::Added);
    assert_eq!(p.moves[0].to, "/arch/2026-02/A");
    assert_eq!(p.moves[1].to, "/arch/2026-02/A_1");
    assert!(p.has_target(&"/arch/2026-02/A_1".to_string()));
    assert!(!p.has_target(&"/arch/2026-02/A_2".to_string()));
}

#[test]
fn prefix_by_component_only() {
    let mut p = plan();
    assert_eq!(p.plan_item(&item("/arch/2026-01/old"), &vec![false]), PlanStep::Skipped);
    assert_eq!(p.plan_item(&item("/archive2"), &vec![false]), PlanStep::Added);
    assert_eq!(p.moves[0].to, "/arch/2026-02/archive2");
}

#[test]
fn path_without_name_goes_to_unknown() {
    let p = plan();
    assert_eq!(p.target_for(&item("/")), Some("/arch/2026-02/unknown".to_string()));
}

#[test]
fn current_month_plan_is_empty() {
    let now: u64 = 1_771_000_000_000_000_000;
    let p = ArchivePlan::for_current_month("/arch".to_string(), now);
    assert!(p.moves.is_empty());
    assert_eq!(p.dest_root, "/arch");
    let expected = chrono::DateTime::from_timestamp_nanos(now as i64)
        .with_timezone(&chrono::Local)
        .format("%Y-%m")
        .to_string();
    assert_eq!(p.month_bucket, expected);
    assert!(p.month_bucket.starts_with("2026-0"));
}

#[test]
fn month_bucket_is_year_dash_two_digit_month() {
    assert_eq!(month_bucket(2026, 2), "2026-02");
    assert_eq!(month_bucket(1999, 12), "1999-12");
    assert_eq!(month_bucket(999, 1), "0999-01");
    assert_eq!(month_bucket(-5, 3), "-0005-03");
    assert_eq!(month_bucket(12345, 7), "+12345-07");
}

#[test]
fn month_bucket_agrees_with_chrono_format() {
    for (y, m) in [(2026, 2), (7, 11), (-44, 3), (10000, 1), (262142, 12), (-262142, 6)] {
        let d = chrono::NaiveDate::from_ymd_opt(y, m, 1).unwrap();
        assert_eq!(month_bucket(y, m), d.format("%Y-%m").to_string());
    }
}

fn three_moves() -> ArchivePlan {
    let mut p = plan();
    for f in ["/r/a", "/r/b", "/r/c"] {
        assert_eq!(p.plan_item(&item(f), &vec![false]), PlanStep::Added);
    }
    p
}

#[test]
fn second_of_three_moves_fails() {
    let p = three_moves();
    assert!(matches!(next_apply_step(&p, &vec![]), ApplyStep::Run(0)));
    assert!(matches!(next_apply_step(&p, &vec![Ok(())]), ApplyStep::Run(1)));
    match next_apply_step(&p, &vec![Ok(()), Err(StepFailure::Rename)]) {
        ApplyStep::Failed(e) => {
            assert_eq!(e.index, 1);
            assert_eq!(e.from, "/r/b");
            assert_eq!(e.to, "/arch/2026-02/b");
            assert_eq!(e.failure, StepFailure::Rename);
        }
        other => panic!("expected a failure, got {:?}", other),
    }
}

#[test]
fn all_moves_succeed_finishes() {
    let p = three_moves();
    assert!(matches!(next_apply_step(&p, &vec![Ok(()), Ok(()), Ok(())]), ApplyStep::Finished));
    match next_apply_step(&p, &vec![Err(StepFailure::CreateDir)]) {
        ApplyStep::Failed(e) => {
            assert_eq!(e.index, 0);
            assert_eq!(e.failure, StepFailure::CreateDir);
        }
        other => panic!("expected a failure, got {:?}", other),
    }
}
