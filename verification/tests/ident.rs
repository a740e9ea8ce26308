use novel_chapter::{NovelProject, Timestamp, VolumeId};

#[test]
fn a_drawn_identifier_is_a_random_uuid() {
    for _ in 0..64 {
        let id = VolumeId::default();
        let uuid = uuid::Uuid::from_u128(id.0);
        assert_eq!(uuid.get_version_num(), 4);
        assert_eq!(uuid.get_variant(), uuid::Variant::RFC4122);
        assert_eq!(id.0 & 0x0000_0000_0000_f000_c000_0000_0000_0000, 0x0000_0000_0000_4000_8000_0000_0000_0000);
    }
}

#[test]
fn drawn_identifiers_differ() {
    let mut seen = Vec::new();
    for _ in 0..256 {
        let id = VolumeId::default();
        assert!(!seen.contains(&id));
        seen.push(id);
    }
}

#[test]
fn created_volumes_get_drawn_identifiers() {
    let mut project = NovelProject::new("/p".to_string(), "P".to_string(), Timestamp { secs: 1, nanos: 0 });
    let (first, _) = project.create_volume("A".to_string(), Timestamp { secs: 2, nanos: 0 });
    let (second, _) = project.create_volume("B".to_string(), Timestamp { secs: 3, nanos: 0 });
    assert_ne!(first, second);
    assert_ne!(first, project.volumes[0].id);
    assert_eq!(uuid::Uuid::from_u128(first.0).get_version_num(), 4);
    assert_eq!(project.volumes[1].id, first);
    assert_eq!(project.volumes[2].id, second);
}
