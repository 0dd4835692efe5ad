use snib_capture::globals::{decide_binding, Global};

fn decide(name: &str, version: u32) -> Option<(Global, u32)> {
    decide_binding(&name.to_string(), version)
}

#[test]
fn known_globals_are_bound() {
    assert_eq!(decide("ext_foreign_toplevel_list_v1", 1), Some((Global::ToplevelList, 1)));
    assert_eq!(decide("wl_output", 2), Some((Global::Output, 2)));
    assert_eq!(decide("wl_shm", 1), Some((Global::Shm, 1)));
    assert_eq!(decide("ext_image_copy_capture_manager_v1", 1), Some((Global::CopyManager, 1)));
    assert_eq!(
        decide("ext_output_image_capture_source_manager_v1", 1),
        Some((Global::OutputSources, 1))
    );
    assert_eq!(
        decide("ext_foreign_toplevel_image_capture_source_manager_v1", 1),
        Some((Global::ToplevelSources, 1))
    );
}

#[test]
fn other_globals_are_left() {
    assert_eq!(decide("wl_seat", 9), None);
    assert_eq!(decide("", 1), None);
    assert_eq!(decide("WL_OUTPUT", 1), None);
}

#[test]
fn versions_are_capped() {
    assert_eq!(decide("wl_output", 99), Some((Global::Output, 4)));
    assert_eq!(decide("wl_shm", 99), Some((Global::Shm, 3)));
    assert_eq!(decide("ext_foreign_toplevel_list_v1", 7), Some((Global::ToplevelList, 1)));
    assert_eq!(decide("ext_image_copy_capture_manager_v1", 7), Some((Global::CopyManager, 1)));
    assert_eq!(
        decide("ext_output_image_capture_source_manager_v1", 7),
        Some((Global::OutputSources, 1))
    );
    assert_eq!(
        decide("ext_foreign_toplevel_image_capture_source_manager_v1", 7),
        Some((Global::ToplevelSources, 1))
    );
    assert_eq!(decide("wl_output", 0), Some((Global::Output, 0)));
}
