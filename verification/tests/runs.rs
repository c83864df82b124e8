use skills_manager::error::SyncError;
use skills_manager::fanout::{DistributionRun, Turn};
use skills_manager::models::Skill;
use skills_manager::progress::{ProgressLog, StageStatus};

fn skill(id: &str, name: &str) -> Skill {
    Skill {
        id: id.to_string(),
        name: name.to_string(),
        source_url: None,
        enabled_agents: vec![],
        last_sync: None,
        last_update: None,
    }
}

fn shape(stage: &ProgressLog) -> (String, StageStatus, u64, u64) {
    (stage.id.clone(), stage.status, stage.progress.done, stage.progress.total)
}

#[test]
fn distribution_reports_every_skill_in_turn() {
    let (run, first) = DistributionRun::begin(vec![skill("1", "one"), skill("2", "two")]);
    let mut shown = vec![first];
    let mut asked = vec![];
    let mut turn = run.advance(Ok(()));
    let outcome = loop {
        match turn {
            Turn::Continue { run, stages, skill } => {
                shown.extend(stages);
                asked.push(run.skill(skill).unwrap().name.clone());
                turn = run.advance(Ok(()));
            },
            Turn::Finished { stages, outcome } => {
                shown.extend(stages);
                break outcome;
            },
        }
    };
    assert!(outcome.is_ok());
    assert_eq!(asked, vec!["one", "two"]);
    let shapes: Vec<(String, StageStatus, u64, u64)> = shown.iter().map(shape).collect();
    assert_eq!(
        shapes,
        vec![
            ("init".to_string(), StageStatus::Loading, 0, 2),
            ("init".to_string(), StageStatus::Success, 0, 2),
            ("sync-1".to_string(), StageStatus::Loading, 0, 2),
            ("sync-1".to_string(), StageStatus::Success, 1, 2),
            ("sync-2".to_string(), StageStatus::Loading, 1, 2),
            ("sync-2".to_string(), StageStatus::Success, 2, 2),
            ("done".to_string(), StageStatus::Success, 2, 2),
        ]
    );
    assert!(shown.iter().all(|s| s.progress.base == 0 && s.progress.span == 100));
    assert_eq!(shown[2].label, "正在分发技能: one");
    assert_eq!(shown[6].label, "分发完成");
}

#[test]
fn distribution_of_nothing_is_done_at_once() {
    let (run, first) = DistributionRun::begin(vec![]);
    assert_eq!(shape(&first), ("init".to_string(), StageStatus::Loading, 0, 1));
    assert!(run.skill(0).is_none());
    match run.advance(Ok(())) {
        Turn::Finished { stages, outcome } => {
            assert!(outcome.is_ok());
            let shapes: Vec<(String, StageStatus, u64, u64)> = stages.iter().map(shape).collect();
            assert_eq!(
                shapes,
                vec![
                    ("init".to_string(), StageStatus::Success, 0, 1),
                    ("done".to_string(), StageStatus::Success, 1, 1),
                ]
            );
        },
        Turn::Continue { .. } => panic!("nothing to distribute"),
    }
}

#[test]
fn distribution_stops_at_the_first_failure() {
    let (run, _first) = DistributionRun::begin(vec![skill("1", "one"), skill("2", "two")]);
    let run = match run.advance(Ok(())) {
        Turn::Continue { run, skill, .. } => {
            assert_eq!(skill, 0);
            run
        },
        Turn::Finished { .. } => panic!("two skills to distribute"),
    };
    let failure = SyncError::SkillNotInStore { name: "one".to_string(), path: "/s/one".to_string() };
    match run.advance(Err(failure)) {
        Turn::Finished { stages, outcome } => {
            assert!(matches!(outcome, Err(SyncError::SkillNotInStore { .. })));
            assert_eq!(stages.len(), 1);
            assert_eq!(stages[0].id, "error");
            assert_eq!(stages[0].status, StageStatus::Error);
            assert_eq!(
                stages[0].label,
                "分发任务异常终止: Skill store not found for name=one at /s/one"
            );
            assert_eq!(
                (stages[0].progress.base, stages[0].progress.span),
                (100, 0)
            );
        },
        Turn::Continue { .. } => panic!("the run went on after a failure"),
    }
}

#[test]
fn distribution_fails_before_any_skill_where_the_store_cannot_be_prepared() {
    let (run, _first) = DistributionRun::begin(vec![skill("1", "one")]);
    match run.advance(Err(SyncError::EmptyStoragePath)) {
        Turn::Finished { stages, outcome } => {
            assert!(matches!(outcome, Err(SyncError::EmptyStoragePath)));
            assert_eq!(stages.len(), 1);
            assert_eq!(stages[0].label, "分发任务异常终止: storagePath is empty");
        },
        Turn::Continue { .. } => panic!("the run went on after a failure"),
    }
}
