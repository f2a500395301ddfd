use cove_optimizer::drivers::identity::DeviceIdentity;
use cove_optimizer::drivers::sdio::error::SdioError;
use cove_optimizer::drivers::sdio::matching::{match_devices_to_indexes, IndexMatchError, MatchError};

fn device(id: &str) -> DeviceIdentity {
    DeviceIdentity {
        instance_id: id.to_string(),
        hardware_ids: vec!["PCI\\VEN_1022&DEV_1480".to_string()],
        compatible_ids: Vec::new(),
        class_guid: None,
        class_name: None,
        description: None,
        manufacturer: None,
        problem_code: None,
        installed: None,
        matching: Vec::new(),
    }
}

#[test]
fn a_refused_index_file_is_named_by_its_position() {
    let indexes = vec![(b"SDW".to_vec(), "DP_Chipset".to_string())];
    let r = match_devices_to_indexes(&indexes, &[device("PCI\\0")]);
    assert!(matches!(r, Err(IndexMatchError::Index { index: 0, error: SdioError::BadBlockHeader(0) })));
    let long = vec![(Vec::new(), "x".repeat(257))];
    let r = match_devices_to_indexes(&long, &[device("PCI\\0")]);
    assert!(matches!(r, Err(IndexMatchError::Index { index: 0, error: SdioError::StringTooLong(0, 256) })));
}

#[test]
fn no_index_files_match_every_device_to_nothing() {
    let r = match_devices_to_indexes(&[], &[device("PCI\\0"), device("PCI\\1")]).unwrap();
    assert_eq!(r.len(), 2);
    assert_eq!(r[1].instance_id, "PCI\\1");
    assert!(r.iter().all(|m| m.candidates.is_empty()));
    let many: Vec<DeviceIdentity> = (0..4097).map(|i| device(&format!("PCI\\{i}"))).collect();
    assert!(matches!(
        match_devices_to_indexes(&[], &many),
        Err(IndexMatchError::Match(MatchError::TooManyDevices(4097)))
    ));
}
