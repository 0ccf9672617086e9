use sensemaker::entry::AssessmentWidgetBlockConfig;
use sensemaker::widgets;
use sensemaker::applet::{check_if_applet_config_exists, register_applet, AppletConfigInput};
use sensemaker::entry::{
    AssessmentTrayConfig, CulturalContext, Entry, EntryHash, Range, ResourceDef, ValueKind,
};
use sensemaker::ledger::{Ledger, LinkType};
use sensemaker::tray::{
    get_default_assessment_tray_config_for_resource_def, set_default_assessment_tray_config_for_resource_def,
    SetAssessmentTrayDefaultInput,
};

fn bundle(name: &str) -> AppletConfigInput {
    AppletConfigInput {
        name: name.to_string(),
        applet_eh: EntryHash(0),
        ranges: vec![Range { name: "ten".to_string(), kind: ValueKind::Integer }],
        resource_defs: vec![
            ResourceDef { resource_name: "post".to_string(), applet_eh: EntryHash(0) },
            ResourceDef { resource_name: "comment".to_string(), applet_eh: EntryHash(0) },
        ],
        cultural_contexts: vec![CulturalContext { name: "top".to_string(), resource_def_eh: EntryHash(0) }],
    }
}

#[test]
fn registering_twice_returns_the_same_configuration() {
    let mut ledger = Ledger::new();
    assert_eq!(check_if_applet_config_exists(&ledger, &"feed".to_string()), Ok(None));
    let first = register_applet(&mut ledger, bundle("feed")).unwrap();
    let count = ledger.entry_count();
    let second = register_applet(&mut ledger, bundle("feed")).unwrap();
    assert_eq!(first, second);
    assert_eq!(ledger.entry_count(), count);
    assert_eq!(check_if_applet_config_exists(&ledger, &"feed".to_string()), Ok(Some(first)));
    match ledger.entry(first) {
        Entry::AppletConfig(c) => {
            assert_eq!(c.name, "feed");
            assert_eq!(c.ranges.len(), 1);
            assert_eq!(c.resource_defs.len(), 2);
            assert_eq!(c.resource_defs[1].name, "comment");
            assert_eq!(c.cultural_contexts.len(), 1);
            let rd = c.resource_defs[0].address;
            let back = ledger.get_link_targets(rd, LinkType::ResourceDefToAppletConfig, None);
            assert_eq!(back, vec![first]);
        },
        _ => panic!("not a configuration"),
    }
}

#[test]
fn different_names_register_separately() {
    let mut ledger = Ledger::new();
    let a = register_applet(&mut ledger, bundle("a")).unwrap();
    let b = register_applet(&mut ledger, bundle("b")).unwrap();
    assert_ne!(a, b);
    assert_eq!(check_if_applet_config_exists(&ledger, &"a".to_string()), Ok(Some(a)));
    assert_eq!(check_if_applet_config_exists(&ledger, &"b".to_string()), Ok(Some(b)));
}

fn tray(ledger: &mut Ledger, name: &str) -> EntryHash {
    ledger
        .create_entry(Entry::AssessmentTrayConfig(AssessmentTrayConfig {
            name: name.to_string(),
            assessment_control_configs: vec![],
        }))
        .unwrap()
        .0
}

#[test]
fn default_pointer_reads_what_was_last_written() {
    let mut ledger = Ledger::new();
    let key = EntryHash(77);
    assert_eq!(get_default_assessment_tray_config_for_resource_def(&ledger, key), Ok(None));
    let t1 = tray(&mut ledger, "one");
    let t2 = tray(&mut ledger, "two");
    let set = |ledger: &mut Ledger, t| {
        set_default_assessment_tray_config_for_resource_def(
            ledger,
            SetAssessmentTrayDefaultInput { resource_def_eh: key, assessment_tray_eh: t },
        )
    };
    assert_eq!(set(&mut ledger, t1), Ok(t1));
    assert_eq!(get_default_assessment_tray_config_for_resource_def(&ledger, key), Ok(Some(t1)));
    assert_eq!(set(&mut ledger, t2), Ok(t2));
    assert_eq!(get_default_assessment_tray_config_for_resource_def(&ledger, key), Ok(Some(t2)));
    let live = ledger.get_links(key, LinkType::ResourceDefDefaultAssessmentTrayConfig, None);
    assert_eq!(live.len(), 1);
}

#[test]
fn with_two_default_edges_the_first_wins() {
    let mut ledger = Ledger::new();
    let key = EntryHash(77);
    let t1 = tray(&mut ledger, "one");
    let t2 = tray(&mut ledger, "two");
    let ty = LinkType::ResourceDefDefaultAssessmentTrayConfig;
    ledger.create_link(key, t1, ty, sensemaker::ledger::LinkTag::Empty).unwrap();
    ledger.create_link(key, t2, ty, sensemaker::ledger::LinkTag::Empty).unwrap();
    assert_eq!(get_default_assessment_tray_config_for_resource_def(&ledger, key), Ok(Some(t1)));
}


#[test]
fn widget_trays_have_their_own_default_pointer() {
    let mut ledger = Ledger::new();
    let key = EntryHash(77);
    let w = widgets::set_assessment_tray_config(
        &mut ledger,
        widgets::AssessmentWidgetTrayConfigInput {
            name: "widgets".to_string(),
            assessment_widget_blocks: vec![AssessmentWidgetBlockConfig {
                applet_id: "feed".to_string(),
                component_name: "thumbs".to_string(),
                dimension_eh: EntryHash(1),
            }],
        },
    )
    .unwrap();
    assert_eq!(widgets::get_assessment_tray_config(&ledger, w), Some(w));
    assert_eq!(widgets::get_default_assessment_tray_config_for_resource_def(&ledger, key), None);
    let r = widgets::set_default_assessment_tray_config_for_resource_def(
        &mut ledger,
        widgets::SetAssessmentTrayDefaultInput { resource_def_eh: key, assessment_tray_eh: w },
    );
    assert_eq!(r, Ok(w));
    assert_eq!(widgets::get_default_assessment_tray_config_for_resource_def(&ledger, key), Some(w));
    assert_eq!(get_default_assessment_tray_config_for_resource_def(&ledger, key), Ok(None));
}

#[test]
fn repeated_names_keep_the_last_declaration() {
    let mut ledger = Ledger::new();
    let mut b = bundle("dup");
    b.resource_defs = vec![
        ResourceDef { resource_name: "post".to_string(), applet_eh: EntryHash(1) },
        ResourceDef { resource_name: "comment".to_string(), applet_eh: EntryHash(2) },
        ResourceDef { resource_name: "post".to_string(), applet_eh: EntryHash(3) },
    ];
    let h = register_applet(&mut ledger, b).unwrap();
    match ledger.entry(h) {
        Entry::AppletConfig(c) => {
            assert_eq!(c.resource_defs.len(), 2);
            let post = c.resource_defs.iter().find(|n| n.name == "post").unwrap();
            match ledger.entry(post.address) {
                Entry::ResourceDef(d) => assert_eq!(d.applet_eh, EntryHash(3)),
                _ => panic!("not a resource definition"),
            }
            for named in &c.resource_defs {
                let back = ledger.get_link_targets(named.address, LinkType::ResourceDefToAppletConfig, None);
                assert_eq!(back, vec![h]);
            }
        },
        _ => panic!("not a configuration"),
    }
}
