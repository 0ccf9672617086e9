use sensemaker::entry::{AssessmentControlConfig, AssessmentTrayConfig, Entry, EntryHash};
use sensemaker::error::WeError;
use sensemaker::ledger::{Ledger, Resolution};
use sensemaker::tray::{
    get_assessment_tray_config, get_assessment_tray_configs, get_latest_assessment_tray,
    set_assessment_tray_config, update_assessment_tray_config, AssessmentTrayConfigInput,
    AssessmentTrayConfigUpdateInput,
};

fn tray_input(name: &str) -> AssessmentTrayConfigInput {
    AssessmentTrayConfigInput {
        name: name.to_string(),
        assessment_control_configs: vec![AssessmentControlConfig {
            applet_id: "applet".to_string(),
            control_key: "thumb".to_string(),
            dimension_eh: EntryHash(0),
        }],
    }
}

fn tray_name(ledger: &Ledger, h: EntryHash) -> String {
    match ledger.entry(h) {
        Entry::AssessmentTrayConfig(t) => t.name.clone(),
        _ => panic!("not a tray configuration"),
    }
}

#[test]
fn unrevised_entity_resolves_to_its_original_content() {
    let mut ledger = Ledger::new();
    let h = set_assessment_tray_config(&mut ledger, tray_input("first")).unwrap();
    assert_eq!(ledger.resolve_latest(h), Resolution::Current(h));
    let latest = get_latest_assessment_tray(&ledger, h).unwrap().unwrap();
    assert_eq!(latest, h);
    assert_eq!(tray_name(&ledger, latest), "first");
}

#[test]
fn chained_revisions_resolve_to_the_last_one() {
    let mut ledger = Ledger::new();
    let (origin, mut action) = ledger
        .create_entry(Entry::AssessmentTrayConfig(AssessmentTrayConfig {
            name: "v0".to_string(),
            assessment_control_configs: vec![],
        }))
        .unwrap();
    let mut last = origin;
    for n in 1..=4 {
        let (h, a) = ledger
            .update_entry(
                action,
                Entry::AssessmentTrayConfig(AssessmentTrayConfig {
                    name: format!("v{}", n),
                    assessment_control_configs: vec![],
                }),
            )
            .unwrap();
        action = a;
        last = h;
    }
    assert_eq!(ledger.resolve_latest(origin), Resolution::Current(last));
    let latest = get_latest_assessment_tray(&ledger, origin).unwrap().unwrap();
    assert_eq!(tray_name(&ledger, latest), "v4");
}

#[test]
fn update_through_tray_api_moves_the_lineage() {
    let mut ledger = Ledger::new();
    let (origin, action) = ledger
        .create_entry(Entry::AssessmentTrayConfig(AssessmentTrayConfig {
            name: "old".to_string(),
            assessment_control_configs: vec![],
        }))
        .unwrap();
    let h = update_assessment_tray_config(
        &mut ledger,
        AssessmentTrayConfigUpdateInput {
            original_action_hash: action,
            updated_assessment_tray_config: tray_input("new"),
        },
    )
    .unwrap();
    assert_ne!(h, origin);
    let latest = get_latest_assessment_tray(&ledger, origin).unwrap().unwrap();
    assert_eq!(latest, h);
    assert_eq!(tray_name(&ledger, latest), "new");
}

#[test]
fn tombstone_at_the_frontier_makes_the_entity_absent() {
    let mut ledger = Ledger::new();
    let (origin, a0) = ledger
        .create_entry(Entry::AssessmentTrayConfig(AssessmentTrayConfig {
            name: "a".to_string(),
            assessment_control_configs: vec![],
        }))
        .unwrap();
    let (_h1, a1) = ledger
        .update_entry(
            a0,
            Entry::AssessmentTrayConfig(AssessmentTrayConfig {
                name: "b".to_string(),
                assessment_control_configs: vec![],
            }),
        )
        .unwrap();
    ledger.delete_entry(a1).unwrap();
    assert_eq!(ledger.resolve_latest(origin), Resolution::Absent);
    assert_eq!(get_latest_assessment_tray(&ledger, origin), Ok(None));
}

#[test]
fn tombstone_before_a_revision_does_not_win() {
    let mut ledger = Ledger::new();
    let (origin, a0) = ledger
        .create_entry(Entry::AssessmentTrayConfig(AssessmentTrayConfig {
            name: "a".to_string(),
            assessment_control_configs: vec![],
        }))
        .unwrap();
    ledger.delete_entry(a0).unwrap();
    let (h1, _a1) = ledger
        .update_entry(
            a0,
            Entry::AssessmentTrayConfig(AssessmentTrayConfig {
                name: "b".to_string(),
                assessment_control_configs: vec![],
            }),
        )
        .unwrap();
    assert_eq!(ledger.resolve_latest(origin), Resolution::Current(h1));
}

#[test]
fn unknown_address_is_missing() {
    let ledger = Ledger::new();
    assert_eq!(ledger.resolve_latest(EntryHash(3)), Resolution::Missing);
    assert_eq!(get_latest_assessment_tray(&ledger, EntryHash(3)), Err(WeError::NotFound));
    assert_eq!(get_assessment_tray_config(&ledger, EntryHash(3)), Ok(None));
}

#[test]
fn wrong_kind_is_a_type_mismatch() {
    let mut ledger = Ledger::new();
    let h = sensemaker::resource_def::create_resource_def(
        &mut ledger,
        sensemaker::entry::ResourceDef { resource_name: "post".to_string(), applet_eh: EntryHash(0) },
    )
    .unwrap();
    assert_eq!(get_assessment_tray_config(&ledger, h), Err(WeError::TypeMismatch));
    assert_eq!(get_latest_assessment_tray(&ledger, h), Err(WeError::TypeMismatch));
}

#[test]
fn update_of_an_unknown_write_is_not_found() {
    let mut ledger = Ledger::new();
    let r = update_assessment_tray_config(
        &mut ledger,
        AssessmentTrayConfigUpdateInput {
            original_action_hash: sensemaker::entry::ActionHash(9),
            updated_assessment_tray_config: tray_input("x"),
        },
    );
    assert_eq!(r, Err(WeError::NotFound));
}

#[test]
fn listing_returns_current_revisions_and_skips_deleted() {
    let mut ledger = Ledger::new();
    assert_eq!(get_assessment_tray_configs(&ledger), Ok(vec![]));
    let a = set_assessment_tray_config(&mut ledger, tray_input("a")).unwrap();
    let b = set_assessment_tray_config(&mut ledger, tray_input("b")).unwrap();
    assert_eq!(get_assessment_tray_configs(&ledger), Ok(vec![a, b]));
    // the create that stored `b`
    let b_action = (0..20)
        .map(sensemaker::entry::ActionHash)
        .find(|x| ledger.written_by(*x) == Some(b))
        .unwrap();
    ledger.delete_entry(b_action).unwrap();
    assert_eq!(get_assessment_tray_configs(&ledger), Ok(vec![a]));
}
