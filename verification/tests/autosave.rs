use gestalt::autosave::{finish_autosave, plan_autosave, AutosavePlan};

#[test]
fn unchanged_workspaces_are_not_written_again() {
    assert_eq!(plan_autosave(Some(7), Ok(7)), AutosavePlan::Unchanged);
    assert_eq!(plan_autosave(Some(7), Ok(8)), AutosavePlan::Save(8));
    assert_eq!(plan_autosave(None, Ok(7)), AutosavePlan::Save(7));
    assert_eq!(
        plan_autosave(None, Err("bad json".to_string())),
        AutosavePlan::Failed("Autosave failed: fingerprint error: bad json".to_string())
    );
}

#[test]
fn only_complete_saves_record_the_fingerprint() {
    assert_eq!(finish_autosave(Some(1), 2, None, None), (Some(2), None));
    assert_eq!(
        finish_autosave(Some(1), 2, Some("disk".to_string()), None),
        (Some(1), Some("Autosave failed: projection save error: disk".to_string()))
    );
    assert_eq!(finish_autosave(None, 2, None, Some("full".to_string())), (None, Some("Autosave failed: full".to_string())));
    assert_eq!(
        finish_autosave(None, 2, Some("a".to_string()), Some("b".to_string())),
        (None, Some("Autosave failed: projection save error: a; workspace save error: b".to_string()))
    );
}
