//! Boot state, spawn, select, close (with the snap back to Home), and the
//! `move_to` ordering rule. Home is not modelled in the set: selecting Home
//! is the absence of a tab selection.

use januas::{InstanceSet, InstanceSetError, ModuleInstanceId, ModuleKind, Selection};

#[test]
fn boot_state_is_home_with_no_tabs() {
    let set = InstanceSet::new();
    assert!(set.is_empty());
    assert_eq!(set.len(), 0);
    assert_eq!(set.selected(), Selection::Home);
    assert!(set.selected_instance().is_none());
}

#[test]
fn module_kind_registry_has_exactly_one_v0_1_module() {
    assert_eq!(ModuleKind::ALL.len(), 1);
    assert_eq!(ModuleKind::ALL[0], ModuleKind::Parallex);
}

#[test]
fn spawn_appends_an_instance() {
    let mut set = InstanceSet::new();
    let id = set.spawn(ModuleKind::Parallex);
    assert_eq!(set.len(), 1);
    let inst = set.get(id).expect("just spawned");
    assert_eq!(inst.kind, ModuleKind::Parallex);
    assert_eq!(inst.name, "Parallex");
    assert_eq!(inst.color, ModuleKind::Parallex.default_color());
}

#[test]
fn spawn_does_not_auto_select() {
    let mut set = InstanceSet::new();
    let _id = set.spawn(ModuleKind::Parallex);
    assert_eq!(set.selected(), Selection::Home);
}

#[test]
fn select_tab_changes_selection() {
    let mut set = InstanceSet::new();
    let id = set.spawn(ModuleKind::Parallex);
    set.select(Selection::Tab(id)).unwrap();
    assert_eq!(set.selected(), Selection::Tab(id));
    assert_eq!(set.selected_instance().map(|i| i.id), Some(id));
}

#[test]
fn select_unknown_tab_returns_not_found() {
    let mut set = InstanceSet::new();
    let err = set.select(Selection::Tab(ModuleInstanceId(99))).unwrap_err();
    assert_eq!(err, InstanceSetError::NotFound);
}

#[test]
fn close_removes_instance_and_snaps_to_home_when_selected() {
    let mut set = InstanceSet::new();
    let id_a = set.spawn(ModuleKind::Parallex);
    let id_b = set.spawn(ModuleKind::Parallex);
    set.select(Selection::Tab(id_b)).unwrap();
    set.close(id_b).unwrap();
    assert_eq!(set.len(), 1);
    assert!(set.get(id_b).is_none());
    assert!(set.get(id_a).is_some());
    assert_eq!(set.selected(), Selection::Home);
}

#[test]
fn close_unrelated_tab_keeps_current_selection() {
    let mut set = InstanceSet::new();
    let id_a = set.spawn(ModuleKind::Parallex);
    let id_b = set.spawn(ModuleKind::Parallex);
    set.select(Selection::Tab(id_a)).unwrap();
    set.close(id_b).unwrap();
    assert_eq!(set.selected(), Selection::Tab(id_a));
}

#[test]
fn close_unknown_id_errors() {
    let mut set = InstanceSet::new();
    let err = set.close(ModuleInstanceId(99)).unwrap_err();
    assert_eq!(err, InstanceSetError::NotFound);
}

#[test]
fn move_to_reorders_instances() {
    let mut set = InstanceSet::new();
    let id_a = set.spawn(ModuleKind::Parallex);
    let id_b = set.spawn(ModuleKind::Parallex);
    let id_c = set.spawn(ModuleKind::Parallex);

    // Moving the first tab to the last position gives [B, C, A].
    set.move_to(id_a, 2).unwrap();
    let order: Vec<_> = set.ordered().map(|i| i.id).collect();
    assert_eq!(order, vec![id_b, id_c, id_a]);
}

#[test]
fn move_to_survives_close_of_unrelated_tab() {
    let mut set = InstanceSet::new();
    let id_a = set.spawn(ModuleKind::Parallex);
    let id_b = set.spawn(ModuleKind::Parallex);
    let id_c = set.spawn(ModuleKind::Parallex);

    set.close(id_b).unwrap();
    set.move_to(id_a, 1).unwrap();
    let order: Vec<_> = set.ordered().map(|i| i.id).collect();
    assert_eq!(order, vec![id_c, id_a]);
}

#[test]
fn close_active_then_select_another_tab() {
    let mut set = InstanceSet::new();
    let id_a = set.spawn(ModuleKind::Parallex);
    let id_b = set.spawn(ModuleKind::Parallex);

    set.select(Selection::Tab(id_a)).unwrap();
    set.close(id_a).unwrap();
    assert_eq!(set.selected(), Selection::Home);
    set.select(Selection::Tab(id_b)).unwrap();
    assert_eq!(set.selected(), Selection::Tab(id_b));
}

#[test]
fn move_to_invalid_position_errors() {
    let mut set = InstanceSet::new();
    let id = set.spawn(ModuleKind::Parallex);
    let err = set.move_to(id, 99).unwrap_err();
    assert_eq!(err, InstanceSetError::InvalidPosition);
}

#[test]
fn rename_via_get_mut() {
    let mut set = InstanceSet::new();
    let id = set.spawn(ModuleKind::Parallex);
    *set.get_mut(id).unwrap().name = "Personal".to_string();
    assert_eq!(set.get(id).unwrap().name, "Personal");
}

#[test]
fn spawned_ids_count_up_from_one() {
    let mut set = InstanceSet::default();
    assert_eq!(set.spawn(ModuleKind::Parallex).as_u32(), 1);
    assert_eq!(set.spawn(ModuleKind::Parallex).as_u32(), 2);
    let c = set.spawn(ModuleKind::Parallex);
    assert_eq!(c, ModuleInstanceId(3));
    set.close(c).unwrap();
    assert_eq!(set.spawn(ModuleKind::Parallex), ModuleInstanceId(4));
}

#[test]
fn close_returns_the_removed_instance() {
    let mut set = InstanceSet::new();
    let id_a = set.spawn(ModuleKind::Parallex);
    let id_b = set.spawn(ModuleKind::Parallex);
    *set.get_mut(id_b).unwrap().color = [1, 2, 3];
    let removed = set.close(id_b).unwrap();
    assert_eq!(removed.id, id_b);
    assert_eq!(removed.color, [1, 2, 3]);
    let order: Vec<_> = set.ordered().map(|i| i.id).collect();
    assert_eq!(order, vec![id_a]);
}

#[test]
fn close_then_spawn_round_trip_keeps_order_and_selection() {
    let mut set = InstanceSet::new();
    let id_a = set.spawn(ModuleKind::Parallex);
    let id_b = set.spawn(ModuleKind::Parallex);
    set.select(Selection::Tab(id_a)).unwrap();
    let id_c = set.spawn(ModuleKind::Parallex);
    set.close(id_c).unwrap();
    let order: Vec<_> = set.ordered().map(|i| i.id).collect();
    assert_eq!(order, vec![id_a, id_b]);
    assert_eq!(set.selected(), Selection::Tab(id_a));
}

#[test]
fn move_to_and_back_restores_order() {
    let mut set = InstanceSet::new();
    let ids: Vec<_> = (0..4).map(|_| set.spawn(ModuleKind::Parallex)).collect();
    set.move_to(ids[1], 3).unwrap();
    let moved: Vec<_> = set.ordered().map(|i| i.id).collect();
    assert_eq!(moved, vec![ids[0], ids[2], ids[3], ids[1]]);
    set.move_to(ids[1], 1).unwrap();
    let back: Vec<_> = set.ordered().map(|i| i.id).collect();
    assert_eq!(back, ids);
}

#[test]
fn move_to_unknown_id_errors_before_position_check() {
    let mut set = InstanceSet::new();
    let _ = set.spawn(ModuleKind::Parallex);
    assert_eq!(set.move_to(ModuleInstanceId(42), 99).unwrap_err(), InstanceSetError::NotFound);
    assert_eq!(set.move_to(ModuleInstanceId(42), 0).unwrap_err(), InstanceSetError::NotFound);
}

#[test]
fn select_home_always_succeeds() {
    let mut set = InstanceSet::new();
    assert_eq!(set.select(Selection::Home), Ok(Selection::Home));
    let id = set.spawn(ModuleKind::Parallex);
    set.select(Selection::Tab(id)).unwrap();
    assert_eq!(set.select(Selection::Home), Ok(Selection::Home));
    assert!(set.selected_instance().is_none());
}

#[test]
fn module_kind_metadata() {
    assert_eq!(ModuleKind::Parallex.name(), "Parallex");
    assert_eq!(ModuleKind::Parallex.description(), "project · grid · providers");
    assert_eq!(ModuleKind::Parallex.icon(), "▦");
    assert_eq!(ModuleKind::Parallex.default_color(), [0x6b, 0xb8, 0xa8]);
}

#[test]
fn error_messages() {
    assert_eq!(InstanceSetError::NotFound.message(), "instance id not found");
    assert_eq!(InstanceSetError::InvalidPosition.message(), "move_to target index out of range");
}

#[test]
fn get_mut_edits_keep_the_id() {
    let mut set = InstanceSet::new();
    let id_a = set.spawn(ModuleKind::Parallex);
    let id_b = set.spawn(ModuleKind::Parallex);
    {
        let edit = set.get_mut(id_a).unwrap();
        *edit.name = "Work".to_string();
        *edit.color = [9, 9, 9];
    }
    assert!(set.get_mut(ModuleInstanceId(99)).is_none());
    let a = set.get(id_a).unwrap();
    assert_eq!((a.id, a.name.as_str(), a.color), (id_a, "Work", [9, 9, 9]));
    assert_eq!(set.get(id_b).unwrap().name, "Parallex");
}

#[test]
fn can_spawn_until_the_counter_is_exhausted() {
    let mut set = InstanceSet::new();
    assert!(set.can_spawn());
    let _ = set.spawn(ModuleKind::Parallex);
    assert!(set.can_spawn());
}
