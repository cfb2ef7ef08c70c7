use racing_pedal_overlay::names::find_name_bytes;
use racing_pedal_overlay::names::shm_label_at;
use racing_pedal_overlay::names::shm_name_at;
use racing_pedal_overlay::names::NEWER_PHYSICS;
use racing_pedal_overlay::names::OLDER_PHYSICS;
use racing_pedal_overlay::names::SHM_COUNT;

const NAMES: [&[u8]; 6] = [
    b"Local\\acevo_pmf_physics\0",
    b"Local\\acevo_pmf_graphics\0",
    b"Local\\acevo_pmf_static\0",
    b"Local\\acpmf_physics\0",
    b"Local\\acpmf_graphics\0",
    b"Local\\acpmf_static\0",
];

#[test]
fn names_end_in_a_nul_and_labels_do_not() {
    assert_eq!(SHM_COUNT, NAMES.len());
    for i in 0..SHM_COUNT {
        assert_eq!(shm_name_at(i).as_bytes(), NAMES[i]);
        assert_eq!(shm_label_at(i).as_bytes(), &NAMES[i][..NAMES[i].len() - 1]);
    }
}

#[test]
fn a_label_leads_back_to_its_name() {
    for i in 0..SHM_COUNT {
        assert_eq!(find_name_bytes(shm_label_at(i)), Some(NAMES[i]));
    }
}

#[test]
fn unknown_labels_lead_nowhere() {
    assert_eq!(find_name_bytes(""), None);
    assert_eq!(find_name_bytes("Local\\acpmf_physic"), None);
    assert_eq!(find_name_bytes("Local\\acpmf_physics\0"), None);
    assert_eq!(find_name_bytes("acpmf_physics"), None);
}

#[test]
fn labels_are_distinct() {
    for i in 0..SHM_COUNT {
        for j in 0..i {
            assert_ne!(shm_label_at(i), shm_label_at(j));
        }
    }
}

#[test]
fn physics_mappings_are_labelled_so() {
    assert_eq!(shm_label_at(NEWER_PHYSICS), "Local\\acevo_pmf_physics");
    assert_eq!(shm_label_at(OLDER_PHYSICS), "Local\\acpmf_physics");
}
